//! Text bodies: reading paragraph text, splitting text into lines, and
//! building fresh paragraphs and runs.

use vstd::prelude::*;
use crate::text::{chars_of, push_chars};
use crate::xml::{
    free_of, holds_none, lemma_desc_path_view, lemma_holds_none, nodes_free_of, elem_v, alike, copy_element, element_bytes, escape_chars, first_named_index, first_named_position,
    lemma_first_named_index, lemma_local_of_prefixed, lemma_nodes_bytes_push, lemma_unescape_escape, named_children, new_element,
    node_bytes, nodes_bytes, raw_text, unescape_chars, Element, Node, is_named,
};
use crate::text::lossy_decode;
use vstd::utf8::{decode_utf8, encode_utf8};

verus! {

broadcast use vstd::utf8::encode_utf8_decode_utf8, vstd::utf8::encode_utf8_valid_utf8;

// ─── Reading ────────────────────────────────────────────────────────────────

/// The elements a sequence of references points to.
pub open spec fn derefs(ts: Seq<&Element>) -> Seq<Element> {
    Seq::new(ts.len(), |k: int| *ts[k])
}

/// The text of each of a sequence of paragraphs.
pub open spec fn paragraph_texts(ps: Seq<&Element>) -> Seq<Seq<char>> {
    Seq::new(ps.len(), |k: int| paragraph_text_spec(*ps[k]))
}

/// The views of a sequence of character vectors.
pub open spec fn char_views(v: Seq<Vec<char>>) -> Seq<Seq<char>> {
    Seq::new(v.len(), |k: int| v[k]@)
}

/// The text of a sequence of `a:t` elements, concatenated.
pub open spec fn ts_text(ts: Seq<Element>) -> Seq<char>
    decreases ts.len(),
{
    if ts.len() == 0 {
        Seq::empty()
    } else {
        ts_text(ts.drop_last()) + raw_text(ts.last().children@)
    }
}

/// The text of a sequence of runs: each run's `a:t` children, concatenated.
pub open spec fn runs_text(rs: Seq<Element>) -> Seq<char>
    decreases rs.len(),
{
    if rs.len() == 0 {
        Seq::empty()
    } else {
        runs_text(rs.drop_last()) + ts_text(named_children(rs.last().children@, /* t */ seq![116u8]))
    }
}

/// The text of a paragraph: the text of its runs.
pub open spec fn paragraph_text_spec(p: Element) -> Seq<char> {
    runs_text(named_children(p.children@, /* r */ seq![114u8]))
}

fn elements_text(ts: &Vec<&Element>) -> (r: String)
    ensures
        r@ == ts_text(derefs(ts@)),
{
    let ghost v = derefs(ts@);
    let mut s = String::new();
    let mut i: usize = 0;
    while i < ts.len()
        invariant
            i <= ts@.len(),
            v == derefs(ts@),
            s@ == ts_text(v.take(i as int)),
        decreases ts@.len() - i,
    {
        let t = ts[i].text_content();
        s.append(t.as_str());
        assert(v.take(i + 1).drop_last() =~= v.take(i as int));
        i = i + 1;
    }
    assert(v.take(v.len() as int) =~= v);
    s
}

/// The text of a paragraph (`a:r > a:t`, concatenated).
pub fn paragraph_text(p: &Element) -> (r: String)
    ensures
        r@ == paragraph_text_spec(*p),
{
    let r_name: [u8; 1] = /* r */ [114u8];
    assert(r_name@ =~= /* r */ seq![114u8]);
    let runs = p.children_named(r_name.as_slice());
    let ghost rs = named_children(p.children@, /* r */ seq![114u8]);
    assert forall|k: int| 0 <= k < rs.len() implies derefs(runs@)[k] == rs[k] by {
        assert(*runs@[k] == rs[k]);
    }
    assert(derefs(runs@) =~= rs);
    let mut s = String::new();
    let mut i: usize = 0;
    while i < runs.len()
        invariant
            i <= runs@.len(),
            runs@.len() == rs.len(),
            forall|k: int| 0 <= k < runs@.len() ==> *runs@[k] == rs[k],
            s@ == runs_text(rs.take(i as int)),
        decreases runs@.len() - i,
    {
        let t_name: [u8; 1] = /* t */ [116u8];
        assert(t_name@ =~= /* t */ seq![116u8]);
        let ts = runs[i].children_named(t_name.as_slice());
        proof {
            let nt = named_children(rs[i as int].children@, /* t */ seq![116u8]);
            assert forall|k: int| 0 <= k < nt.len() implies derefs(ts@)[k] == nt[k] by {
                assert(*ts@[k] == nt[k]);
            }
            assert(derefs(ts@) =~= nt);
        }
        let t = elements_text(&ts);
        s.append(t.as_str());
        assert(rs.take(i + 1).drop_last() =~= rs.take(i as int));
        i = i + 1;
    }
    assert(rs.take(rs.len() as int) =~= rs);
    s
}

/// Lines joined by `\n`.
pub open spec fn join_lines(ls: Seq<Seq<char>>) -> Seq<char>
    decreases ls.len(),
{
    if ls.len() == 0 {
        Seq::empty()
    } else if ls.len() == 1 {
        ls[0]
    } else {
        join_lines(ls.drop_last()) + seq!['\n'] + ls.last()
    }
}

/// The texts of the paragraphs `ps`, joined by `\n`.
pub fn join_paragraph_texts(ps: &Vec<&Element>) -> (r: String)
    ensures
        r@ == join_lines(paragraph_texts(ps@)),
{
    let ghost ls = paragraph_texts(ps@);
    let mut s = String::new();
    let mut i: usize = 0;
    while i < ps.len()
        invariant
            i <= ps@.len(),
            ls == paragraph_texts(ps@),
            s@ == join_lines(ls.take(i as int)),
        decreases ps@.len() - i,
    {
        if i > 0 {
            s.push('\n');
        }
        let t = paragraph_text(ps[i]);
        s.append(t.as_str());
        assert(ls.take(i + 1).drop_last() =~= ls.take(i as int));
        i = i + 1;
    }
    assert(ls.take(ls.len() as int) =~= ls);
    s
}

// ─── Lines ──────────────────────────────────────────────────────────────────

/// Index of the first `\n` in `s`, or -1.
pub open spec fn first_newline(s: Seq<char>) -> int
    decreases s.len(),
{
    if s.len() == 0 {
        -1
    } else if s[0] == '\n' {
        0
    } else {
        let r = first_newline(s.drop_first());
        if r < 0 {
            -1
        } else {
            r + 1
        }
    }
}

/// A line without one trailing `\r`.
pub open spec fn strip_cr(s: Seq<char>) -> Seq<char> {
    if s.len() > 0 && s.last() == '\r' {
        s.drop_last()
    } else {
        s
    }
}

/// The lines of `s` as `str::lines` gives them: split at `\n` (a `\r` just
/// before it is dropped), with no empty line after a final `\n`.
pub open spec fn rust_lines(s: Seq<char>) -> Seq<Seq<char>>
    decreases s.len(),
{
    if s.len() == 0 {
        Seq::empty()
    } else {
        let i = first_newline(s);
        if i < 0 {
            seq![s]
        } else {
            proof {
                lemma_first_newline(s);
            }
            seq![strip_cr(s.take(i))] + rust_lines(s.skip(i + 1))
        }
    }
}

pub proof fn lemma_first_newline(s: Seq<char>)
    ensures
        -1 <= first_newline(s) < s.len(),
        first_newline(s) >= 0 ==> s[first_newline(s)] == '\n',
        forall|j: int| 0 <= j < s.len() && (first_newline(s) < 0 || j < first_newline(s)) ==> s[j] != '\n',
    decreases s.len(),
{
    if s.len() > 0 {
        lemma_first_newline(s.drop_first());
        assert forall|j: int| 0 < j < s.len() implies s[j] == s.drop_first()[j - 1] by {}
    }
}

proof fn lemma_first_newline_after(cur: Seq<char>, rest: Seq<char>)
    requires
        forall|j: int| 0 <= j < cur.len() ==> cur[j] != '\n',
    ensures
        first_newline(rest) >= 0 ==> first_newline(cur + rest) == cur.len() + first_newline(rest),
        first_newline(rest) < 0 ==> first_newline(cur + rest) < 0,
    decreases cur.len(),
{
    if cur.len() > 0 {
        lemma_first_newline_after(cur.drop_first(), rest);
        assert((cur + rest).drop_first() =~= cur.drop_first() + rest);
    } else {
        assert(cur + rest =~= rest);
    }
}

proof fn lemma_join_cons(a: Seq<char>, ls: Seq<Seq<char>>)
    requires
        ls.len() >= 1,
    ensures
        join_lines(seq![a] + ls) == a + seq!['\n'] + join_lines(ls),
    decreases ls.len(),
{
    assert((seq![a] + ls).drop_last() =~= seq![a] + ls.drop_last());
    assert((seq![a] + ls).last() == ls.last());
    if ls.len() == 1 {
        assert(seq![a] + ls.drop_last() =~= seq![a]);
        assert(join_lines(seq![a]) == a);
        assert(join_lines(ls) == ls[0]);
        assert(join_lines(seq![a] + ls) =~= a + seq!['\n'] + join_lines(ls));
    } else {
        lemma_join_cons(a, ls.drop_last());
        assert(join_lines(ls) == join_lines(ls.drop_last()) + seq!['\n'] + ls.last());
        assert(join_lines(seq![a] + ls) == join_lines(seq![a] + ls.drop_last()) + seq!['\n'] + ls.last());
        assert(join_lines(seq![a] + ls) =~= a + seq!['\n'] + join_lines(ls));
    }
}

proof fn lemma_rust_lines_join(s: Seq<char>)
    requires
        s.len() > 0,
        !s.contains('\r'),
        s.last() != '\n',
    ensures
        rust_lines(s).len() >= 1,
        join_lines(rust_lines(s)) == s,
    decreases s.len(),
{
    lemma_first_newline(s);
    let i = first_newline(s);
    if i >= 0 {
        let rest = s.skip(i + 1);
        assert(i < s.len() - 1);
        assert(rest.last() == s.last());
        assert(!rest.contains('\r')) by {
            assert forall|j: int| 0 <= j < rest.len() implies rest[j] != '\r' by {
                assert(rest[j] == s[i + 1 + j]);
            }
        }
        lemma_rust_lines_join(rest);
        let head = s.take(i);
        assert(strip_cr(head) == head) by {
            if head.len() > 0 {
                assert(head.last() == s[i - 1]);
            }
        }
        lemma_join_cons(head, rust_lines(rest));
        assert(seq![strip_cr(head)] + rust_lines(rest) == rust_lines(s));
        assert(head + seq!['\n'] + rest =~= s);
    }
}

/// The lines of a text, joined by `\n`, give back the text when it holds no
/// `\r` and does not end with `\n`.
pub proof fn lemma_lines_join_back(s: Seq<char>)
    requires
        !s.contains('\r'),
        s.len() > 0 ==> s.last() != '\n',
    ensures
        join_lines(text_lines(s)) == s,
{
    if s.len() > 0 {
        lemma_rust_lines_join(s);
    }
}

/// The lines a text is written as: one empty line for empty text, else
/// `str::lines`.
pub open spec fn text_lines(s: Seq<char>) -> Seq<Seq<char>> {
    if s.len() == 0 {
        seq![Seq::<char>::empty()]
    } else {
        rust_lines(s)
    }
}

/// Split a text into its lines (`text_lines`).
pub fn lines_of(text: &str) -> (r: Vec<Vec<char>>)
    ensures
        r@.len() == text_lines(text@).len(),
        forall|k: int| 0 <= k < r@.len() ==> r@[k]@ == text_lines(text@)[k],
{
    let cs = chars_of(text);
    let mut out: Vec<Vec<char>> = Vec::new();
    if cs.len() == 0 {
        out.push(Vec::new());
        return out;
    }
    let ghost s = cs@;
    let mut cur: Vec<char> = Vec::new();
    let mut i: usize = 0;
    assert(s.skip(0) =~= s);
    while i < cs.len()
        invariant
            i <= s.len(),
            s == cs@,
            s == text@,
            s.len() > 0,
            forall|j: int| 0 <= j < cur@.len() ==> cur@[j] != '\n',
            (char_views(out@) + rust_lines(cur@ + s.skip(i as int))) == rust_lines(s),
        decreases s.len() - i,
    {
        let c = cs[i];
        let ghost rest = s.skip(i as int);
        assert(rest[0] == c);
        if c == '\n' {
            let ghost cur_v = cur@;
            proof {
                lemma_first_newline_after(cur@, rest);
                assert(first_newline(rest) == 0);
                let w = cur@ + rest;
                assert(w.take(cur@.len() as int) =~= cur@);
                assert(w.skip(cur@.len() as int + 1) =~= s.skip(i + 1));
                assert(rust_lines(w) == seq![strip_cr(cur_v)] + rust_lines(s.skip(i + 1)));
            }
            let mut line = cur;
            if line.len() > 0 && line[line.len() - 1] == '\r' {
                line.pop();
            }
            let ghost before = out@;
            out.push(line);
            cur = Vec::new();
            proof {
                assert(out@[out@.len() - 1]@ == strip_cr(cur_v));
                assert(char_views(out@) =~= char_views(before).push(strip_cr(cur_v)));
                assert(cur@ + s.skip(i + 1) =~= s.skip(i + 1));
                assert(char_views(before).push(strip_cr(cur_v)) + rust_lines(s.skip(i + 1))
                    =~= char_views(before) + (seq![strip_cr(cur_v)] + rust_lines(s.skip(i + 1))));
            }
        } else {
            let ghost old_cur = cur@;
            cur.push(c);
            assert(cur@ + s.skip(i + 1) =~= old_cur + rest);
        }
        i = i + 1;
    }
    proof {
        assert(s.skip(s.len() as int) =~= Seq::<char>::empty());
        assert(cur@ + s.skip(s.len() as int) =~= cur@);
        lemma_first_newline(cur@);
    }
    if cur.len() > 0 {
        let ghost before = out@;
        out.push(cur);
        assert(char_views(out@) =~= char_views(before) + rust_lines(out@[out@.len() - 1]@));
    } else {
        assert(char_views(out@) + rust_lines(cur@) =~= char_views(out@));
    }
    proof {
        assert forall|k: int| 0 <= k < out@.len() implies out@[k]@ == text_lines(text@)[k] by {
            assert(char_views(out@)[k] == out@[k]@);
        }
    }
    out
}

// ─── Building ───────────────────────────────────────────────────────────────

/// The bytes an optional element is written as (none for `None`).
pub open spec fn opt_bytes(e: Option<Element>) -> Seq<u8> {
    match e {
        Some(x) => element_bytes(x),
        None => Seq::empty(),
    }
}

/// The bytes of a fresh `a:t` holding `text`, escaped.
pub open spec fn t_bytes(text: Seq<char>) -> Seq<u8> {
    /* <a:t> */ seq![60u8, 97u8, 58u8, 116u8, 62u8] + encode_utf8(escape_chars(text)) + /* </a:t> */ seq![60u8, 47u8, 97u8, 58u8, 116u8, 62u8]
}

/// The bytes of a fresh run: the optional properties, then the text.
pub open spec fn run_bytes(text: Seq<char>, rpr: Option<Element>) -> Seq<u8> {
    /* <a:r> */ seq![60u8, 97u8, 58u8, 114u8, 62u8] + opt_bytes(rpr) + t_bytes(text) + /* </a:r> */ seq![60u8, 47u8, 97u8, 58u8, 114u8, 62u8]
}

/// The bytes of a fresh paragraph holding one run.
pub open spec fn para_bytes(text: Seq<char>, rpr: Option<Element>) -> Seq<u8> {
    /* <a:p> */ seq![60u8, 97u8, 58u8, 112u8, 62u8] + run_bytes(text, rpr) + /* </a:p> */ seq![60u8, 47u8, 97u8, 58u8, 112u8, 62u8]
}

/// A fresh `a:t` element holding `text`.
pub fn make_t(text: &str) -> (t: Element)
    ensures
        element_bytes(t) == t_bytes(text@),
        t.local() == /* t */ seq![116u8],
        raw_text(t.children@) == text@,
        forall|l: Seq<u8>| #[trigger] holds_none(t, l),
{
    let name: [u8; 3] = /* a:t */ [97u8, 58u8, 116u8];
    assert(name@ =~= /* a:t */ seq![97u8, 58u8, 116u8]);
    let mut t = new_element(name.as_slice());
    t.set_text_content(text);
    proof {
        assert(/* a:t */ seq![97u8, 58u8, 116u8] =~= seq![97u8, 58u8] + /* t */ seq![116u8]);
        lemma_local_of_prefixed(97u8, /* t */ seq![116u8]);
        lemma_nodes_bytes_push(Seq::<Node>::empty(), t.children@[0]);
        assert(t.children@ =~= Seq::<Node>::empty().push(t.children@[0]));
        assert(element_bytes(t) =~= t_bytes(text@));
        lemma_unescape_escape(text@);
        assert(t.children@.drop_last() =~= Seq::<Node>::empty());
        assert(decode_utf8(encode_utf8(escape_chars(text@))) == escape_chars(text@));
        assert(lossy_decode(encode_utf8(escape_chars(text@))) == escape_chars(text@));
        assert(raw_text(t.children@.drop_last()) =~= Seq::<char>::empty());
        assert(raw_text(t.children@) =~= unescape_chars(escape_chars(text@)));
        assert forall|l: Seq<u8>| #[trigger] holds_none(t, l) by {
            lemma_holds_none(t, l);
            assert(t.children@.len() == 1);
        }
    }
    t
}

/// A fresh run holding `text`, with a copy of `rpr` as its properties.
#[verifier::spinoff_prover]
#[verifier::rlimit(30)]
pub fn make_run(text: &str, rpr: &Option<Element>) -> (r: Element)
    ensures
        element_bytes(r) == run_bytes(text@, *rpr),
        r.local() == /* r */ seq![114u8],
        (rpr matches Some(x) ==> x.local() != /* t */ seq![116u8]) ==> ts_text(named_children(r.children@, /* t */ seq![116u8])) == text@,
        forall|l: Seq<u8>|
            l != /* t */ seq![116u8] && (*rpr matches Some(x) ==> free_of(x, l)) ==> #[trigger] holds_none(r, l),
{
    let name: [u8; 3] = /* a:r */ [97u8, 58u8, 114u8];
    assert(name@ =~= /* a:r */ seq![97u8, 58u8, 114u8]);
    let mut run = new_element(name.as_slice());
    proof {
        assert(/* a:r */ seq![97u8, 58u8, 114u8] =~= seq![97u8, 58u8] + /* r */ seq![114u8]);
        lemma_local_of_prefixed(97u8, /* r */ seq![114u8]);
    }
    let ghost empty = run.children@;
    assert(empty =~= Seq::<Node>::empty());
    match rpr {
        Some(x) => {
            let c = copy_element(x);
            run.children.push(Node::Element(c));
            proof {
                let m = run.children@;
                assert(m.drop_last() =~= empty);
                assert(m.last() == Node::Element(c));
                assert(c.local() == x.local());
                lemma_nodes_bytes_push(empty, Node::Element(c));
                assert(nodes_bytes(m) =~= element_bytes(c));
                if x.local() != /* t */ seq![116u8] {
                    assert(!is_named(m.last(), /* t */ seq![116u8]));
                    assert(named_children(empty, /* t */ seq![116u8]) =~= Seq::<Element>::empty());
                    assert(named_children(m, /* t */ seq![116u8]) =~= Seq::<Element>::empty());
                }
                assert forall|l: Seq<u8>| free_of(*x, l) implies #[trigger] nodes_free_of(m, l) by {
                    lemma_desc_path_view(c, *x, l);
                    assert(m.len() == 1 && m[0] == Node::Element(c));
                }
            }
        },
        None => {},
    }
    let ghost mid = run.children@;
    assert forall|l: Seq<u8>| (*rpr matches Some(x) ==> free_of(x, l)) implies #[trigger] nodes_free_of(mid, l) by {
        if rpr is None {
            assert(mid.len() == 0);
        }
    }
    assert(nodes_bytes(mid) == opt_bytes(*rpr));
    assert((rpr matches Some(x) ==> x.local() != /* t */ seq![116u8]) ==> named_children(mid, /* t */ seq![116u8]) =~= Seq::<Element>::empty());
    let t = make_t(text);
    run.children.push(Node::Element(t));
    proof {
        lemma_nodes_bytes_push(mid, Node::Element(t));
        assert(element_bytes(run) =~= run_bytes(text@, *rpr));
        assert(run.children@.drop_last() == mid);
        if (rpr matches Some(x) ==> x.local() != /* t */ seq![116u8]) {
            assert(is_named(run.children@.last(), /* t */ seq![116u8]));
            assert(named_children(run.children@, /* t */ seq![116u8]) =~= seq![t]);
            assert(seq![t].drop_last() =~= Seq::<Element>::empty());
            assert(ts_text(Seq::<Element>::empty()) =~= Seq::<char>::empty());
            assert(ts_text(seq![t]) =~= raw_text(t.children@));
        }
        assert forall|l: Seq<u8>| l != /* t */ seq![116u8] && (*rpr matches Some(x) ==> free_of(x, l)) implies #[trigger] holds_none(
            run,
            l,
        ) by {
            lemma_holds_none(run, l);
            assert(nodes_free_of(mid, l));
            assert(holds_none(t, l));
            assert forall|i: int| 0 <= i < run.children@.len() && #[trigger] run.children@[i] is Element implies free_of(
                run.children@[i]->Element_0,
                l,
            ) by {
                if i < mid.len() {
                    assert(run.children@[i] == mid[i]);
                } else {
                    assert(run.children@[i] == Node::Element(t));
                }
            }
        }
    }
    run
}

/// A fresh paragraph holding one run of `text`, with a copy of `rpr` as the
/// run's properties.
pub fn make_paragraph(text: &str, rpr: &Option<Element>) -> (p: Element)
    ensures
        element_bytes(p) == para_bytes(text@, *rpr),
        p.local() == /* p */ seq![112u8],
        (rpr matches Some(x) ==> x.local() != /* t */ seq![116u8]) ==> paragraph_text_spec(p) == text@,
{
    let name: [u8; 3] = /* a:p */ [97u8, 58u8, 112u8];
    assert(name@ =~= /* a:p */ seq![97u8, 58u8, 112u8]);
    let mut p = new_element(name.as_slice());
    proof {
        assert(/* a:p */ seq![97u8, 58u8, 112u8] =~= seq![97u8, 58u8] + /* p */ seq![112u8]);
        lemma_local_of_prefixed(97u8, /* p */ seq![112u8]);
    }
    let run = make_run(text, rpr);
    let ghost empty = p.children@;
    p.children.push(Node::Element(run));
    proof {
        assert(empty =~= Seq::<Node>::empty());
        lemma_nodes_bytes_push(empty, Node::Element(run));
        assert(element_bytes(p) =~= para_bytes(text@, *rpr));
        assert(p.children@.drop_last() =~= Seq::<Node>::empty());
        assert(is_named(p.children@.last(), /* r */ seq![114u8]));
        assert(named_children(p.children@.drop_last(), /* r */ seq![114u8]) =~= Seq::<Element>::empty());
        assert(named_children(p.children@, /* r */ seq![114u8]) =~= seq![run]);
        assert(seq![run].drop_last() =~= Seq::<Element>::empty());
        assert(runs_text(Seq::<Element>::empty()) =~= Seq::<char>::empty());
        assert(runs_text(seq![run]) =~= ts_text(named_children(run.children@, /* t */ seq![116u8])));
    }
    p
}

/// The bytes of a fresh paragraph: a copy of the paragraph properties
/// `ppr` (when given), then one run.
pub open spec fn templated_para_bytes(text: Seq<char>, ppr: Option<Element>, rpr: Option<Element>) -> Seq<u8> {
    /* <a:p> */ seq![60u8, 97u8, 58u8, 112u8, 62u8] + opt_bytes(ppr) + run_bytes(text, rpr) + /* </a:p> */ seq![60u8, 47u8, 97u8, 58u8, 112u8, 62u8]
}

/// A fresh paragraph holding a copy of `ppr` as its properties and one run
/// of `text`, with a copy of `rpr` as the run's properties.
pub fn make_templated_paragraph(text: &str, ppr: &Option<Element>, rpr: &Option<Element>) -> (p: Element)
    ensures
        element_bytes(p) == templated_para_bytes(text@, *ppr, *rpr),
        p.local() == /* p */ seq![112u8],
        (ppr matches Some(x) ==> x.local() != /* r */ seq![114u8]) && (rpr matches Some(x) ==> x.local() != /* t */ seq![116u8])
            ==> paragraph_text_spec(p) == text@,
        forall|l: Seq<u8>|
            l != /* t */ seq![116u8] && l != /* r */ seq![114u8] && (*ppr matches Some(x) ==> free_of(x, l)) && (*rpr matches Some(x) ==> free_of(x, l))
                ==> #[trigger] holds_none(p, l),
{
    let name: [u8; 3] = /* a:p */ [97u8, 58u8, 112u8];
    assert(name@ =~= /* a:p */ seq![97u8, 58u8, 112u8]);
    let mut p = new_element(name.as_slice());
    proof {
        assert(/* a:p */ seq![97u8, 58u8, 112u8] =~= seq![97u8, 58u8] + /* p */ seq![112u8]);
        lemma_local_of_prefixed(97u8, /* p */ seq![112u8]);
    }
    let ghost empty = p.children@;
    assert(empty =~= Seq::<Node>::empty());
    match ppr {
        Some(x) => {
            let c = copy_element(x);
            p.children.push(Node::Element(c));
            proof {
                let m = p.children@;
                assert(m.drop_last() =~= empty);
                assert(m.last() == Node::Element(c));
                assert(c.local() == x.local());
                lemma_nodes_bytes_push(empty, Node::Element(c));
                assert(nodes_bytes(m) =~= element_bytes(c));
                if x.local() != /* r */ seq![114u8] {
                    assert(!is_named(m.last(), /* r */ seq![114u8]));
                    assert(named_children(empty, /* r */ seq![114u8]) =~= Seq::<Element>::empty());
                    assert(named_children(m, /* r */ seq![114u8]) =~= Seq::<Element>::empty());
                }
                assert forall|l: Seq<u8>| free_of(*x, l) implies #[trigger] nodes_free_of(m, l) by {
                    lemma_desc_path_view(c, *x, l);
                    assert(m.len() == 1 && m[0] == Node::Element(c));
                }
            }
        },
        None => {},
    }
    let ghost mid = p.children@;
    assert forall|l: Seq<u8>| (*ppr matches Some(x) ==> free_of(x, l)) implies #[trigger] nodes_free_of(mid, l) by {
        if ppr is None {
            assert(mid.len() == 0);
        }
    }
    assert(nodes_bytes(mid) == opt_bytes(*ppr));
    assert((ppr matches Some(x) ==> x.local() != /* r */ seq![114u8]) ==> named_children(mid, /* r */ seq![114u8]) =~= Seq::<Element>::empty());
    let run = make_run(text, rpr);
    p.children.push(Node::Element(run));
    proof {
        lemma_nodes_bytes_push(mid, Node::Element(run));
        assert(element_bytes(p) =~= templated_para_bytes(text@, *ppr, *rpr));
        assert(p.children@.drop_last() == mid);
        if (ppr matches Some(x) ==> x.local() != /* r */ seq![114u8]) {
            assert(is_named(p.children@.last(), /* r */ seq![114u8]));
            assert(named_children(p.children@, /* r */ seq![114u8]) =~= seq![run]);
            assert(seq![run].drop_last() =~= Seq::<Element>::empty());
            assert(runs_text(Seq::<Element>::empty()) =~= Seq::<char>::empty());
            assert(runs_text(seq![run]) =~= ts_text(named_children(run.children@, /* t */ seq![116u8])));
        }
        assert forall|l: Seq<u8>|
            l != /* t */ seq![116u8] && l != /* r */ seq![114u8] && (*ppr matches Some(x) ==> free_of(x, l)) && (*rpr matches Some(x) ==> free_of(x, l))
                implies #[trigger] holds_none(p, l) by {
            lemma_holds_none(p, l);
            assert(nodes_free_of(mid, l));
            assert(holds_none(run, l));
            assert forall|i: int| 0 <= i < p.children@.len() && #[trigger] p.children@[i] is Element implies free_of(
                p.children@[i]->Element_0,
                l,
            ) by {
                if i < mid.len() {
                    assert(p.children@[i] == mid[i]);
                } else {
                    assert(p.children@[i] == Node::Element(run));
                }
            }
        }
    }
    p
}

} // verus!
