//! Preset shape geometry: the presets drawn with a real outline, and that
//! outline on the unit square.

use vstd::prelude::*;
use crate::text::str_eq;

verus! {

/// The preset geometry names that have a real outline (not just a bounding
/// box).
pub open spec fn common_preset_names() -> Seq<Seq<char>> {
    seq![
        /* rect */ seq!['r', 'e', 'c', 't'],
        /* roundRect */ seq!['r', 'o', 'u', 'n', 'd', 'R', 'e', 'c', 't'],
        /* ellipse */ seq!['e', 'l', 'l', 'i', 'p', 's', 'e'],
        /* triangle */ seq!['t', 'r', 'i', 'a', 'n', 'g', 'l', 'e'],
        /* isosTriangle */ seq!['i', 's', 'o', 's', 'T', 'r', 'i', 'a', 'n', 'g', 'l', 'e'],
        /* rtTriangle */ seq!['r', 't', 'T', 'r', 'i', 'a', 'n', 'g', 'l', 'e'],
        /* diamond */ seq!['d', 'i', 'a', 'm', 'o', 'n', 'd'],
        /* pentagon */ seq!['p', 'e', 'n', 't', 'a', 'g', 'o', 'n'],
        /* hexagon */ seq!['h', 'e', 'x', 'a', 'g', 'o', 'n'],
        /* heptagon */ seq!['h', 'e', 'p', 't', 'a', 'g', 'o', 'n'],
        /* octagon */ seq!['o', 'c', 't', 'a', 'g', 'o', 'n'],
        /* star4 */ seq!['s', 't', 'a', 'r', '4'],
        /* star5 */ seq!['s', 't', 'a', 'r', '5'],
        /* star6 */ seq!['s', 't', 'a', 'r', '6'],
        /* arrow */ seq!['a', 'r', 'r', 'o', 'w'],
        /* rightArrow */ seq!['r', 'i', 'g', 'h', 't', 'A', 'r', 'r', 'o', 'w'],
        /* leftArrow */ seq!['l', 'e', 'f', 't', 'A', 'r', 'r', 'o', 'w'],
        /* upArrow */ seq!['u', 'p', 'A', 'r', 'r', 'o', 'w'],
        /* downArrow */ seq!['d', 'o', 'w', 'n', 'A', 'r', 'r', 'o', 'w'],
        /* heart */ seq!['h', 'e', 'a', 'r', 't'],
        /* parallelogram */ seq!['p', 'a', 'r', 'a', 'l', 'l', 'e', 'l', 'o', 'g', 'r', 'a', 'm'],
        /* trapezoid */ seq!['t', 'r', 'a', 'p', 'e', 'z', 'o', 'i', 'd'],
        /* chevron */ seq!['c', 'h', 'e', 'v', 'r', 'o', 'n'],
        /* homePlate */ seq!['h', 'o', 'm', 'e', 'P', 'l', 'a', 't', 'e'],
        /* plus */ seq!['p', 'l', 'u', 's'],
        /* cross */ seq!['c', 'r', 'o', 's', 's'],
        /* cloud */ seq!['c', 'l', 'o', 'u', 'd'],
        /* ribbon */ seq!['r', 'i', 'b', 'b', 'o', 'n'],
        /* ribbon2 */ seq!['r', 'i', 'b', 'b', 'o', 'n', '2'],
        /* donut */ seq!['d', 'o', 'n', 'u', 't'],
        /* flowChartProcess */ seq!['f', 'l', 'o', 'w', 'C', 'h', 'a', 'r', 't', 'P', 'r', 'o', 'c', 'e', 's', 's'],
        /* flowChartDecision */ seq!['f', 'l', 'o', 'w', 'C', 'h', 'a', 'r', 't', 'D', 'e', 'c', 'i', 's', 'i', 'o', 'n'],
        /* flowChartTerminator */ seq!['f', 'l', 'o', 'w', 'C', 'h', 'a', 'r', 't', 'T', 'e', 'r', 'm', 'i', 'n', 'a', 't', 'o', 'r'],
        /* callout1 */ seq!['c', 'a', 'l', 'l', 'o', 'u', 't', '1'],
        /* wedgeRectCallout */ seq!['w', 'e', 'd', 'g', 'e', 'R', 'e', 'c', 't', 'C', 'a', 'l', 'l', 'o', 'u', 't'],
        /* roundedRect */ seq!['r', 'o', 'u', 'n', 'd', 'e', 'd', 'R', 'e', 'c', 't'],
        /* snip1Rect */ seq!['s', 'n', 'i', 'p', '1', 'R', 'e', 'c', 't'],
        /* snip2SameRect */ seq!['s', 'n', 'i', 'p', '2', 'S', 'a', 'm', 'e', 'R', 'e', 'c', 't']
    ]
}

/// The preset names considered common, in a fixed order.
pub fn common_presets() -> (r: &'static [&'static str])
    ensures
        r@.len() == common_preset_names().len(),
        forall|i: int| 0 <= i < r@.len() ==> (#[trigger] r@[i])@ == common_preset_names()[i],
{
    proof {
        reveal_strlit("rect");
        reveal_strlit("roundRect");
        reveal_strlit("ellipse");
        reveal_strlit("triangle");
        reveal_strlit("isosTriangle");
        reveal_strlit("rtTriangle");
        reveal_strlit("diamond");
        reveal_strlit("pentagon");
        reveal_strlit("hexagon");
        reveal_strlit("heptagon");
        reveal_strlit("octagon");
        reveal_strlit("star4");
        reveal_strlit("star5");
        reveal_strlit("star6");
        reveal_strlit("arrow");
        reveal_strlit("rightArrow");
        reveal_strlit("leftArrow");
        reveal_strlit("upArrow");
        reveal_strlit("downArrow");
        reveal_strlit("heart");
        reveal_strlit("parallelogram");
        reveal_strlit("trapezoid");
        reveal_strlit("chevron");
        reveal_strlit("homePlate");
        reveal_strlit("plus");
        reveal_strlit("cross");
        reveal_strlit("cloud");
        reveal_strlit("ribbon");
        reveal_strlit("ribbon2");
        reveal_strlit("donut");
        reveal_strlit("flowChartProcess");
        reveal_strlit("flowChartDecision");
        reveal_strlit("flowChartTerminator");
        reveal_strlit("callout1");
        reveal_strlit("wedgeRectCallout");
        reveal_strlit("roundedRect");
        reveal_strlit("snip1Rect");
        reveal_strlit("snip2SameRect");
    }
    let names: &'static [&'static str] = &[
        "rect",
        "roundRect",
        "ellipse",
        "triangle",
        "isosTriangle",
        "rtTriangle",
        "diamond",
        "pentagon",
        "hexagon",
        "heptagon",
        "octagon",
        "star4",
        "star5",
        "star6",
        "arrow",
        "rightArrow",
        "leftArrow",
        "upArrow",
        "downArrow",
        "heart",
        "parallelogram",
        "trapezoid",
        "chevron",
        "homePlate",
        "plus",
        "cross",
        "cloud",
        "ribbon",
        "ribbon2",
        "donut",
        "flowChartProcess",
        "flowChartDecision",
        "flowChartTerminator",
        "callout1",
        "wedgeRectCallout",
        "roundedRect",
        "snip1Rect",
        "snip2SameRect"
    ];
    names
}

/// The outline of a preset on the unit square, as SVG path commands with
/// coordinates in [0, 1]; `None` for a preset drawn as its bounding box.
pub open spec fn unit_path(name: Seq<char>) -> Option<Seq<char>> {
    if name == "rect"@ {
        Some("M0,0 L1,0 L1,1 L0,1 Z"@)
    } else if name == "roundRect"@ {
        Some("M0.167,0 L0.833,0 Q1,0 1,0.167 L1,0.833 Q1,1 0.833,1 L0.167,1 Q0,1 0,0.833 L0,0.167 Q0,0 0.167,0 Z"@)
    } else if name == "ellipse"@ {
        Some("M0.5,0 C0.776,0 1,0.224 1,0.5 C1,0.776 0.776,1 0.5,1 C0.224,1 0,0.776 0,0.5 C0,0.224 0.224,0 0.5,0 Z"@)
    } else if name == "triangle"@ {
        Some("M0.5,0 L1,1 L0,1 Z"@)
    } else if name == "isosTriangle"@ {
        Some("M0.5,0 L1,1 L0,1 Z"@)
    } else if name == "rtTriangle"@ {
        Some("M0,0 L1,1 L0,1 Z"@)
    } else if name == "diamond"@ {
        Some("M0.5,0 L1,0.5 L0.5,1 L0,0.5 Z"@)
    } else if name == "pentagon"@ {
        Some("M0.5,0 L0.975,0.345 L0.794,0.905 L0.206,0.905 L0.025,0.345 Z"@)
    } else if name == "hexagon"@ {
        Some("M0.25,0 L0.75,0 L1,0.5 L0.75,1 L0.25,1 L0,0.5 Z"@)
    } else if name == "heptagon"@ {
        Some("M0.5,0 L0.81,0.19 L0.97,0.61 L0.79,0.95 L0.21,0.95 L0.03,0.61 L0.19,0.19 Z"@)
    } else if name == "octagon"@ {
        Some("M0.293,0 L0.707,0 L1,0.293 L1,0.707 L0.707,1 L0.293,1 L0,0.707 L0,0.293 Z"@)
    } else if name == "star4"@ {
        Some("M0.5,0 L0.625,0.375 L1,0.5 L0.625,0.625 L0.5,1 L0.375,0.625 L0,0.5 L0.375,0.375 Z"@)
    } else if name == "star5"@ {
        Some("M0.5,0 L0.612,0.345 L0.976,0.345 L0.682,0.559 L0.794,0.905 L0.5,0.691 L0.206,0.905 L0.318,0.559 L0.024,0.345 L0.388,0.345 Z"@)
    } else if name == "star6"@ {
        Some("M0.5,0 L0.625,0.25 L0.933,0.25 L0.75,0.5 L0.933,0.75 L0.625,0.75 L0.5,1 L0.375,0.75 L0.067,0.75 L0.25,0.5 L0.067,0.25 L0.375,0.25 Z"@)
    } else if name == "arrow"@ {
        Some("M0,0.25 L0.6,0.25 L0.6,0 L1,0.5 L0.6,1 L0.6,0.75 L0,0.75 Z"@)
    } else if name == "rightArrow"@ {
        Some("M0,0.25 L0.6,0.25 L0.6,0 L1,0.5 L0.6,1 L0.6,0.75 L0,0.75 Z"@)
    } else if name == "leftArrow"@ {
        Some("M0,0.5 L0.4,0 L0.4,0.25 L1,0.25 L1,0.75 L0.4,0.75 L0.4,1 Z"@)
    } else if name == "upArrow"@ {
        Some("M0.5,0 L1,0.4 L0.75,0.4 L0.75,1 L0.25,1 L0.25,0.4 L0,0.4 Z"@)
    } else if name == "downArrow"@ {
        Some("M0.25,0 L0.75,0 L0.75,0.6 L1,0.6 L0.5,1 L0,0.6 L0.25,0.6 Z"@)
    } else if name == "heart"@ {
        Some("M0.5,0.2 C0.5,0 0.75,-0.1 0.9,0.1 C1.05,0.3 1,0.5 0.5,1 C0,0.5 -0.05,0.3 0.1,0.1 C0.25,-0.1 0.5,0 0.5,0.2 Z"@)
    } else if name == "parallelogram"@ {
        Some("M0.25,0 L1,0 L0.75,1 L0,1 Z"@)
    } else if name == "trapezoid"@ {
        Some("M0.2,0 L0.8,0 L1,1 L0,1 Z"@)
    } else if name == "chevron"@ {
        Some("M0,0 L0.75,0 L1,0.5 L0.75,1 L0,1 L0.25,0.5 Z"@)
    } else if name == "homePlate"@ {
        Some("M0,0 L0.8,0 L1,0.5 L0.8,1 L0,1 Z"@)
    } else if name == "plus"@ {
        Some("M0.333,0 L0.667,0 L0.667,0.333 L1,0.333 L1,0.667 L0.667,0.667 L0.667,1 L0.333,1 L0.333,0.667 L0,0.667 L0,0.333 L0.333,0.333 Z"@)
    } else if name == "cross"@ {
        Some("M0.333,0 L0.667,0 L0.667,0.333 L1,0.333 L1,0.667 L0.667,0.667 L0.667,1 L0.333,1 L0.333,0.667 L0,0.667 L0,0.333 L0.333,0.333 Z"@)
    } else if name == "cloud"@ {
        Some("M0.2,0.6 C0,0.6 0,0.4 0.15,0.35 C0.1,0.2 0.3,0.1 0.45,0.2 C0.5,0.05 0.75,0.05 0.8,0.2 C0.95,0.15 1.05,0.35 0.9,0.45 C1.05,0.55 1,0.75 0.85,0.75 L0.2,0.75 C0.05,0.75 0,0.65 0.2,0.6 Z"@)
    } else if name == "ribbon"@ {
        Some("M0,0.2 L0.15,0.35 L0.15,0 L0.85,0 L0.85,0.35 L1,0.2 L1,0.8 L0.85,0.65 L0.85,1 L0.15,1 L0.15,0.65 L0,0.8 Z"@)
    } else if name == "ribbon2"@ {
        Some("M0,0.2 L0.15,0.35 L0.15,0 L0.85,0 L0.85,0.35 L1,0.2 L1,0.8 L0.85,0.65 L0.85,1 L0.15,1 L0.15,0.65 L0,0.8 Z"@)
    } else if name == "donut"@ {
        Some("M0.5,0 C0.776,0 1,0.224 1,0.5 C1,0.776 0.776,1 0.5,1 C0.224,1 0,0.776 0,0.5 C0,0.224 0.224,0 0.5,0 Z M0.5,0.3 C0.39,0.3 0.3,0.39 0.3,0.5 C0.3,0.61 0.39,0.7 0.5,0.7 C0.61,0.7 0.7,0.61 0.7,0.5 C0.7,0.39 0.61,0.3 0.5,0.3 Z"@)
    } else if name == "flowChartProcess"@ {
        Some("M0,0 L1,0 L1,1 L0,1 Z"@)
    } else if name == "flowChartDecision"@ {
        Some("M0.5,0 L1,0.5 L0.5,1 L0,0.5 Z"@)
    } else if name == "flowChartTerminator"@ {
        Some("M0.2,0 L0.8,0 C1,0 1,1 0.8,1 L0.2,1 C0,1 0,0 0.2,0 Z"@)
    } else if name == "callout1"@ {
        Some("M0,0 L1,0 L1,0.75 L0.6,0.75 L0.5,1 L0.4,0.75 L0,0.75 Z"@)
    } else if name == "wedgeRectCallout"@ {
        Some("M0,0 L1,0 L1,0.75 L0.6,0.75 L0.5,1 L0.4,0.75 L0,0.75 Z"@)
    } else if name == "roundedRect"@ {
        Some("M0.167,0 L0.833,0 Q1,0 1,0.167 L1,0.833 Q1,1 0.833,1 L0.167,1 Q0,1 0,0.833 L0,0.167 Q0,0 0.167,0 Z"@)
    } else if name == "snip1Rect"@ {
        Some("M0.167,0 L0.833,0 Q1,0 1,0.167 L1,0.833 Q1,1 0.833,1 L0.167,1 Q0,1 0,0.833 L0,0.167 Q0,0 0.167,0 Z"@)
    } else if name == "snip2SameRect"@ {
        Some("M0.167,0 L0.833,0 Q1,0 1,0.167 L1,0.833 Q1,1 0.833,1 L0.167,1 Q0,1 0,0.833 L0,0.167 Q0,0 0.167,0 Z"@)
    } else {
        None
    }
}

/// The unit-square outline of a preset, when it has one (see [`unit_path`]).
pub fn unit_path_for(name: &str) -> (r: Option<&'static str>)
    ensures
        match r {
            Some(p) => unit_path(name@) == Some(p@),
            None => unit_path(name@) is None,
        },
{
    if str_eq(name, "rect") {
        Some("M0,0 L1,0 L1,1 L0,1 Z")
    } else if str_eq(name, "roundRect") {
        Some("M0.167,0 L0.833,0 Q1,0 1,0.167 L1,0.833 Q1,1 0.833,1 L0.167,1 Q0,1 0,0.833 L0,0.167 Q0,0 0.167,0 Z")
    } else if str_eq(name, "ellipse") {
        Some("M0.5,0 C0.776,0 1,0.224 1,0.5 C1,0.776 0.776,1 0.5,1 C0.224,1 0,0.776 0,0.5 C0,0.224 0.224,0 0.5,0 Z")
    } else if str_eq(name, "triangle") {
        Some("M0.5,0 L1,1 L0,1 Z")
    } else if str_eq(name, "isosTriangle") {
        Some("M0.5,0 L1,1 L0,1 Z")
    } else if str_eq(name, "rtTriangle") {
        Some("M0,0 L1,1 L0,1 Z")
    } else if str_eq(name, "diamond") {
        Some("M0.5,0 L1,0.5 L0.5,1 L0,0.5 Z")
    } else if str_eq(name, "pentagon") {
        Some("M0.5,0 L0.975,0.345 L0.794,0.905 L0.206,0.905 L0.025,0.345 Z")
    } else if str_eq(name, "hexagon") {
        Some("M0.25,0 L0.75,0 L1,0.5 L0.75,1 L0.25,1 L0,0.5 Z")
    } else if str_eq(name, "heptagon") {
        Some("M0.5,0 L0.81,0.19 L0.97,0.61 L0.79,0.95 L0.21,0.95 L0.03,0.61 L0.19,0.19 Z")
    } else if str_eq(name, "octagon") {
        Some("M0.293,0 L0.707,0 L1,0.293 L1,0.707 L0.707,1 L0.293,1 L0,0.707 L0,0.293 Z")
    } else if str_eq(name, "star4") {
        Some("M0.5,0 L0.625,0.375 L1,0.5 L0.625,0.625 L0.5,1 L0.375,0.625 L0,0.5 L0.375,0.375 Z")
    } else if str_eq(name, "star5") {
        Some("M0.5,0 L0.612,0.345 L0.976,0.345 L0.682,0.559 L0.794,0.905 L0.5,0.691 L0.206,0.905 L0.318,0.559 L0.024,0.345 L0.388,0.345 Z")
    } else if str_eq(name, "star6") {
        Some("M0.5,0 L0.625,0.25 L0.933,0.25 L0.75,0.5 L0.933,0.75 L0.625,0.75 L0.5,1 L0.375,0.75 L0.067,0.75 L0.25,0.5 L0.067,0.25 L0.375,0.25 Z")
    } else if str_eq(name, "arrow") {
        Some("M0,0.25 L0.6,0.25 L0.6,0 L1,0.5 L0.6,1 L0.6,0.75 L0,0.75 Z")
    } else if str_eq(name, "rightArrow") {
        Some("M0,0.25 L0.6,0.25 L0.6,0 L1,0.5 L0.6,1 L0.6,0.75 L0,0.75 Z")
    } else if str_eq(name, "leftArrow") {
        Some("M0,0.5 L0.4,0 L0.4,0.25 L1,0.25 L1,0.75 L0.4,0.75 L0.4,1 Z")
    } else if str_eq(name, "upArrow") {
        Some("M0.5,0 L1,0.4 L0.75,0.4 L0.75,1 L0.25,1 L0.25,0.4 L0,0.4 Z")
    } else if str_eq(name, "downArrow") {
        Some("M0.25,0 L0.75,0 L0.75,0.6 L1,0.6 L0.5,1 L0,0.6 L0.25,0.6 Z")
    } else if str_eq(name, "heart") {
        Some("M0.5,0.2 C0.5,0 0.75,-0.1 0.9,0.1 C1.05,0.3 1,0.5 0.5,1 C0,0.5 -0.05,0.3 0.1,0.1 C0.25,-0.1 0.5,0 0.5,0.2 Z")
    } else if str_eq(name, "parallelogram") {
        Some("M0.25,0 L1,0 L0.75,1 L0,1 Z")
    } else if str_eq(name, "trapezoid") {
        Some("M0.2,0 L0.8,0 L1,1 L0,1 Z")
    } else if str_eq(name, "chevron") {
        Some("M0,0 L0.75,0 L1,0.5 L0.75,1 L0,1 L0.25,0.5 Z")
    } else if str_eq(name, "homePlate") {
        Some("M0,0 L0.8,0 L1,0.5 L0.8,1 L0,1 Z")
    } else if str_eq(name, "plus") {
        Some("M0.333,0 L0.667,0 L0.667,0.333 L1,0.333 L1,0.667 L0.667,0.667 L0.667,1 L0.333,1 L0.333,0.667 L0,0.667 L0,0.333 L0.333,0.333 Z")
    } else if str_eq(name, "cross") {
        Some("M0.333,0 L0.667,0 L0.667,0.333 L1,0.333 L1,0.667 L0.667,0.667 L0.667,1 L0.333,1 L0.333,0.667 L0,0.667 L0,0.333 L0.333,0.333 Z")
    } else if str_eq(name, "cloud") {
        Some("M0.2,0.6 C0,0.6 0,0.4 0.15,0.35 C0.1,0.2 0.3,0.1 0.45,0.2 C0.5,0.05 0.75,0.05 0.8,0.2 C0.95,0.15 1.05,0.35 0.9,0.45 C1.05,0.55 1,0.75 0.85,0.75 L0.2,0.75 C0.05,0.75 0,0.65 0.2,0.6 Z")
    } else if str_eq(name, "ribbon") {
        Some("M0,0.2 L0.15,0.35 L0.15,0 L0.85,0 L0.85,0.35 L1,0.2 L1,0.8 L0.85,0.65 L0.85,1 L0.15,1 L0.15,0.65 L0,0.8 Z")
    } else if str_eq(name, "ribbon2") {
        Some("M0,0.2 L0.15,0.35 L0.15,0 L0.85,0 L0.85,0.35 L1,0.2 L1,0.8 L0.85,0.65 L0.85,1 L0.15,1 L0.15,0.65 L0,0.8 Z")
    } else if str_eq(name, "donut") {
        Some("M0.5,0 C0.776,0 1,0.224 1,0.5 C1,0.776 0.776,1 0.5,1 C0.224,1 0,0.776 0,0.5 C0,0.224 0.224,0 0.5,0 Z M0.5,0.3 C0.39,0.3 0.3,0.39 0.3,0.5 C0.3,0.61 0.39,0.7 0.5,0.7 C0.61,0.7 0.7,0.61 0.7,0.5 C0.7,0.39 0.61,0.3 0.5,0.3 Z")
    } else if str_eq(name, "flowChartProcess") {
        Some("M0,0 L1,0 L1,1 L0,1 Z")
    } else if str_eq(name, "flowChartDecision") {
        Some("M0.5,0 L1,0.5 L0.5,1 L0,0.5 Z")
    } else if str_eq(name, "flowChartTerminator") {
        Some("M0.2,0 L0.8,0 C1,0 1,1 0.8,1 L0.2,1 C0,1 0,0 0.2,0 Z")
    } else if str_eq(name, "callout1") {
        Some("M0,0 L1,0 L1,0.75 L0.6,0.75 L0.5,1 L0.4,0.75 L0,0.75 Z")
    } else if str_eq(name, "wedgeRectCallout") {
        Some("M0,0 L1,0 L1,0.75 L0.6,0.75 L0.5,1 L0.4,0.75 L0,0.75 Z")
    } else if str_eq(name, "roundedRect") {
        Some("M0.167,0 L0.833,0 Q1,0 1,0.167 L1,0.833 Q1,1 0.833,1 L0.167,1 Q0,1 0,0.833 L0,0.167 Q0,0 0.167,0 Z")
    } else if str_eq(name, "snip1Rect") {
        Some("M0.167,0 L0.833,0 Q1,0 1,0.167 L1,0.833 Q1,1 0.833,1 L0.167,1 Q0,1 0,0.833 L0,0.167 Q0,0 0.167,0 Z")
    } else if str_eq(name, "snip2SameRect") {
        Some("M0.167,0 L0.833,0 Q1,0 1,0.167 L1,0.833 Q1,1 0.833,1 L0.167,1 Q0,1 0,0.833 L0,0.167 Q0,0 0.167,0 Z")
    } else {
        None
    }
}

/// Every common preset has a real outline on the unit square.
pub proof fn lemma_common_presets_have_outlines()
    ensures
        forall|i: int| 0 <= i < common_preset_names().len() ==> (#[trigger] unit_path(common_preset_names()[i])) is Some,
{
    reveal_strlit("rect");
    reveal_strlit("roundRect");
    reveal_strlit("ellipse");
    reveal_strlit("triangle");
    reveal_strlit("isosTriangle");
    reveal_strlit("rtTriangle");
    reveal_strlit("diamond");
    reveal_strlit("pentagon");
    reveal_strlit("hexagon");
    reveal_strlit("heptagon");
    reveal_strlit("octagon");
    reveal_strlit("star4");
    reveal_strlit("star5");
    reveal_strlit("star6");
    reveal_strlit("arrow");
    reveal_strlit("rightArrow");
    reveal_strlit("leftArrow");
    reveal_strlit("upArrow");
    reveal_strlit("downArrow");
    reveal_strlit("heart");
    reveal_strlit("parallelogram");
    reveal_strlit("trapezoid");
    reveal_strlit("chevron");
    reveal_strlit("homePlate");
    reveal_strlit("plus");
    reveal_strlit("cross");
    reveal_strlit("cloud");
    reveal_strlit("ribbon");
    reveal_strlit("ribbon2");
    reveal_strlit("donut");
    reveal_strlit("flowChartProcess");
    reveal_strlit("flowChartDecision");
    reveal_strlit("flowChartTerminator");
    reveal_strlit("callout1");
    reveal_strlit("wedgeRectCallout");
    reveal_strlit("roundedRect");
    reveal_strlit("snip1Rect");
    reveal_strlit("snip2SameRect");
    assert forall|i: int| 0 <= i < common_preset_names().len() implies (#[trigger] unit_path(common_preset_names()[i])) is Some by {
        if i == 0 {
            assert(common_preset_names()[i] == "rect"@);
        } else if i == 1 {
            assert(common_preset_names()[i] == "roundRect"@);
        } else if i == 2 {
            assert(common_preset_names()[i] == "ellipse"@);
        } else if i == 3 {
            assert(common_preset_names()[i] == "triangle"@);
        } else if i == 4 {
            assert(common_preset_names()[i] == "isosTriangle"@);
        } else if i == 5 {
            assert(common_preset_names()[i] == "rtTriangle"@);
        } else if i == 6 {
            assert(common_preset_names()[i] == "diamond"@);
        } else if i == 7 {
            assert(common_preset_names()[i] == "pentagon"@);
        } else if i == 8 {
            assert(common_preset_names()[i] == "hexagon"@);
        } else if i == 9 {
            assert(common_preset_names()[i] == "heptagon"@);
        } else if i == 10 {
            assert(common_preset_names()[i] == "octagon"@);
        } else if i == 11 {
            assert(common_preset_names()[i] == "star4"@);
        } else if i == 12 {
            assert(common_preset_names()[i] == "star5"@);
        } else if i == 13 {
            assert(common_preset_names()[i] == "star6"@);
        } else if i == 14 {
            assert(common_preset_names()[i] == "arrow"@);
        } else if i == 15 {
            assert(common_preset_names()[i] == "rightArrow"@);
        } else if i == 16 {
            assert(common_preset_names()[i] == "leftArrow"@);
        } else if i == 17 {
            assert(common_preset_names()[i] == "upArrow"@);
        } else if i == 18 {
            assert(common_preset_names()[i] == "downArrow"@);
        } else if i == 19 {
            assert(common_preset_names()[i] == "heart"@);
        } else if i == 20 {
            assert(common_preset_names()[i] == "parallelogram"@);
        } else if i == 21 {
            assert(common_preset_names()[i] == "trapezoid"@);
        } else if i == 22 {
            assert(common_preset_names()[i] == "chevron"@);
        } else if i == 23 {
            assert(common_preset_names()[i] == "homePlate"@);
        } else if i == 24 {
            assert(common_preset_names()[i] == "plus"@);
        } else if i == 25 {
            assert(common_preset_names()[i] == "cross"@);
        } else if i == 26 {
            assert(common_preset_names()[i] == "cloud"@);
        } else if i == 27 {
            assert(common_preset_names()[i] == "ribbon"@);
        } else if i == 28 {
            assert(common_preset_names()[i] == "ribbon2"@);
        } else if i == 29 {
            assert(common_preset_names()[i] == "donut"@);
        } else if i == 30 {
            assert(common_preset_names()[i] == "flowChartProcess"@);
        } else if i == 31 {
            assert(common_preset_names()[i] == "flowChartDecision"@);
        } else if i == 32 {
            assert(common_preset_names()[i] == "flowChartTerminator"@);
        } else if i == 33 {
            assert(common_preset_names()[i] == "callout1"@);
        } else if i == 34 {
            assert(common_preset_names()[i] == "wedgeRectCallout"@);
        } else if i == 35 {
            assert(common_preset_names()[i] == "roundedRect"@);
        } else if i == 36 {
            assert(common_preset_names()[i] == "snip1Rect"@);
        } else if i == 37 {
            assert(common_preset_names()[i] == "snip2SameRect"@);
        }
    }
}

} // verus!
