use zavora_slide::layout::Rect;
use zavora_slide::resolve_geometry::{
    default_fallback, resolve_all_geometry, resolve_shape_geometry, PartShapes, PlaceholderKey, ResolvedGeometry,
    ShapeDescriptor, ShapeXfrm,
};

fn xfrm(x: i64, y: i64, cx: i64, cy: i64) -> ShapeXfrm {
    ShapeXfrm {
        x,
        y,
        cx,
        cy,
        rot: 0,
    }
}

fn xfrm_rot(x: i64, y: i64, cx: i64, cy: i64, rot: i64) -> ShapeXfrm {
    ShapeXfrm { x, y, cx, cy, rot }
}

fn ph_key(ph_type: &str, idx: Option<u32>) -> PlaceholderKey {
    PlaceholderKey {
        ph_type: ph_type.to_string(),
        idx,
    }
}

#[test]
fn placeholder_inherits_from_layout_when_slide_has_no_xfrm() {
    let slide_shape = ShapeDescriptor {
        placeholder: Some(ph_key("title", None)),
        xfrm: None, // no explicit xfrm on slide
    };
    let layout = PartShapes {
        shapes: vec![ShapeDescriptor {
            placeholder: Some(ph_key("title", None)),
            xfrm: Some(xfrm(100, 200, 8000000, 1000000)),
        }],
    };
    let master = PartShapes::default();

    let resolved = resolve_shape_geometry(&slide_shape, &layout, &master);
    assert_eq!(
        resolved,
        Some(ResolvedGeometry {
            rect: Rect {
                x: 100,
                y: 200,
                w: 8000000,
                h: 1000000
            },
            rotation: 0,
        })
    );
}

#[test]
fn placeholder_inherits_from_master_when_neither_slide_nor_layout_has_xfrm() {
    let slide_shape = ShapeDescriptor {
        placeholder: Some(ph_key("body", Some(1))),
        xfrm: None,
    };
    let layout = PartShapes {
        shapes: vec![ShapeDescriptor {
            placeholder: Some(ph_key("body", Some(1))),
            xfrm: None, // layout also has no xfrm
        }],
    };
    let master = PartShapes {
        shapes: vec![ShapeDescriptor {
            placeholder: Some(ph_key("body", Some(1))),
            xfrm: Some(xfrm(457200, 1600200, 8229600, 4525963)),
        }],
    };

    let resolved = resolve_shape_geometry(&slide_shape, &layout, &master);
    assert_eq!(
        resolved,
        Some(ResolvedGeometry {
            rect: Rect {
                x: 457200,
                y: 1600200,
                w: 8229600,
                h: 4525963
            },
            rotation: 0,
        })
    );
}

#[test]
fn non_placeholder_uses_own_explicit_xfrm() {
    let slide_shape = ShapeDescriptor {
        placeholder: None,
        xfrm: Some(xfrm(500000, 600000, 2000000, 1000000)),
    };
    let layout = PartShapes::default();
    let master = PartShapes::default();

    let resolved = resolve_shape_geometry(&slide_shape, &layout, &master);
    assert_eq!(
        resolved,
        Some(ResolvedGeometry {
            rect: Rect {
                x: 500000,
                y: 600000,
                w: 2000000,
                h: 1000000
            },
            rotation: 0,
        })
    );
}

#[test]
fn non_placeholder_without_xfrm_returns_none() {
    let slide_shape = ShapeDescriptor {
        placeholder: None,
        xfrm: None,
    };
    let layout = PartShapes::default();
    let master = PartShapes::default();

    let resolved = resolve_shape_geometry(&slide_shape, &layout, &master);
    assert_eq!(resolved, None);
}

#[test]
fn rotation_is_applied() {
    let slide_shape = ShapeDescriptor {
        placeholder: None,
        xfrm: Some(xfrm_rot(100, 200, 300, 400, 5400000)), // 90°
    };
    let layout = PartShapes::default();
    let master = PartShapes::default();

    let resolved = resolve_shape_geometry(&slide_shape, &layout, &master);
    assert_eq!(
        resolved,
        Some(ResolvedGeometry {
            rect: Rect {
                x: 100,
                y: 200,
                w: 300,
                h: 400
            },
            rotation: 5400000,
        })
    );
}

#[test]
fn rotation_inherited_from_layout() {
    let slide_shape = ShapeDescriptor {
        placeholder: Some(ph_key("title", None)),
        xfrm: None,
    };
    let layout = PartShapes {
        shapes: vec![ShapeDescriptor {
            placeholder: Some(ph_key("title", None)),
            xfrm: Some(xfrm_rot(100, 200, 8000000, 1000000, 2700000)),
        }],
    };
    let master = PartShapes::default();

    let resolved = resolve_shape_geometry(&slide_shape, &layout, &master);
    assert_eq!(resolved.unwrap().rotation, 2700000);
}

#[test]
fn fallback_to_default_box_when_nothing_resolves() {
    let slide_shape = ShapeDescriptor {
        placeholder: Some(ph_key("title", None)),
        xfrm: None,
    };
    let layout = PartShapes::default(); // no matching placeholder
    let master = PartShapes::default(); // no matching placeholder

    let resolved = resolve_shape_geometry(&slide_shape, &layout, &master);
    let expected = default_fallback("title");
    assert_eq!(
        resolved,
        Some(ResolvedGeometry {
            rect: expected,
            rotation: 0,
        })
    );
}

#[test]
fn fallback_body_default() {
    let slide_shape = ShapeDescriptor {
        placeholder: Some(ph_key("body", Some(1))),
        xfrm: None,
    };
    let layout = PartShapes::default();
    let master = PartShapes::default();

    let resolved = resolve_shape_geometry(&slide_shape, &layout, &master);
    let expected = default_fallback("body");
    assert_eq!(
        resolved,
        Some(ResolvedGeometry {
            rect: expected,
            rotation: 0,
        })
    );
}

#[test]
fn matching_by_ph_type_and_idx() {
    // Two body placeholders with different idx values
    let slide_shape = ShapeDescriptor {
        placeholder: Some(ph_key("body", Some(2))),
        xfrm: None,
    };
    let layout = PartShapes {
        shapes: vec![
            ShapeDescriptor {
                placeholder: Some(ph_key("body", Some(1))),
                xfrm: Some(xfrm(100, 100, 4000000, 2000000)),
            },
            ShapeDescriptor {
                placeholder: Some(ph_key("body", Some(2))),
                xfrm: Some(xfrm(4200000, 100, 4000000, 2000000)),
            },
        ],
    };
    let master = PartShapes::default();

    let resolved = resolve_shape_geometry(&slide_shape, &layout, &master);
    assert_eq!(
        resolved,
        Some(ResolvedGeometry {
            rect: Rect {
                x: 4200000,
                y: 100,
                w: 4000000,
                h: 2000000
            },
            rotation: 0,
        })
    );
}

#[test]
fn slide_xfrm_takes_priority_over_layout_and_master() {
    let slide_shape = ShapeDescriptor {
        placeholder: Some(ph_key("title", None)),
        xfrm: Some(xfrm(1000, 2000, 7000000, 900000)),
    };
    let layout = PartShapes {
        shapes: vec![ShapeDescriptor {
            placeholder: Some(ph_key("title", None)),
            xfrm: Some(xfrm(500, 500, 8000000, 1100000)),
        }],
    };
    let master = PartShapes {
        shapes: vec![ShapeDescriptor {
            placeholder: Some(ph_key("title", None)),
            xfrm: Some(xfrm(457200, 274638, 8229600, 1143000)),
        }],
    };

    let resolved = resolve_shape_geometry(&slide_shape, &layout, &master);
    // Slide's own xfrm wins
    assert_eq!(
        resolved,
        Some(ResolvedGeometry {
            rect: Rect {
                x: 1000,
                y: 2000,
                w: 7000000,
                h: 900000
            },
            rotation: 0,
        })
    );
}

#[test]
fn ctr_title_matches_title() {
    let slide_shape = ShapeDescriptor {
        placeholder: Some(ph_key("ctrTitle", None)),
        xfrm: None,
    };
    let layout = PartShapes {
        shapes: vec![ShapeDescriptor {
            placeholder: Some(ph_key("title", None)),
            xfrm: Some(xfrm(100, 200, 8000000, 1000000)),
        }],
    };
    let master = PartShapes::default();

    let resolved = resolve_shape_geometry(&slide_shape, &layout, &master);
    assert_eq!(
        resolved.unwrap().rect,
        Rect {
            x: 100,
            y: 200,
            w: 8000000,
            h: 1000000
        }
    );
}

#[test]
fn resolve_all_geometry_batch() {
    let shapes = vec![
        ShapeDescriptor {
            placeholder: Some(ph_key("title", None)),
            xfrm: Some(xfrm(100, 200, 8000000, 1000000)),
        },
        ShapeDescriptor {
            placeholder: None,
            xfrm: None, // non-placeholder without xfrm → None
        },
        ShapeDescriptor {
            placeholder: Some(ph_key("body", Some(1))),
            xfrm: None,
        },
    ];
    let layout = PartShapes {
        shapes: vec![ShapeDescriptor {
            placeholder: Some(ph_key("body", Some(1))),
            xfrm: Some(xfrm(457200, 1600200, 8229600, 4525963)),
        }],
    };
    let master = PartShapes::default();

    let results = resolve_all_geometry(&shapes, &layout, &master);
    assert_eq!(results.len(), 3);
    assert!(results[0].is_some()); // title with own xfrm
    assert!(results[1].is_none()); // non-placeholder, no xfrm
    assert!(results[2].is_some()); // body inherited from layout
}

#[test]
fn subtitle_matches_body_and_idx_mismatch_is_skipped() {
    let slide_shape = ShapeDescriptor { placeholder: Some(ph_key("subTitle", Some(3))), xfrm: None };
    let layout = PartShapes {
        shapes: vec![
            ShapeDescriptor { placeholder: Some(ph_key("body", Some(4))), xfrm: Some(xfrm(1, 1, 1, 1)) },
            ShapeDescriptor { placeholder: Some(ph_key("body", None)), xfrm: None },
            ShapeDescriptor { placeholder: Some(ph_key("body", None)), xfrm: Some(xfrm(7, 8, 9, 10)) },
        ],
    };
    let resolved = resolve_shape_geometry(&slide_shape, &layout, &PartShapes::default());
    assert_eq!(resolved.unwrap().rect, Rect { x: 7, y: 8, w: 9, h: 10 });
    assert_eq!(default_fallback("ctrTitle"), Rect { x: 457200, y: 274638, w: 8229600, h: 1143000 });
    assert_eq!(default_fallback("pic"), Rect { x: 457200, y: 1600200, w: 8229600, h: 4525963 });
}
