//! Properties of template expansion that hold for every input.
use vstd::prelude::*;

use crate::expand::{
    display, display_begin_tag, display_end_tag, display_fold, display_name, expand_lines_spec,
    expansion, impl_piece, impls_text, kind_of, read_areas, replace_params, scan_line, scan_start,
    scanned, area_step, arm_text, AreaScan, LineKind, LineV,
};
use crate::params::Pairs;
use crate::template::{lemma_lookup_index, lookup_index, Template};
use crate::text::{
    is_ws, join_lines, lemma_join_split, lemma_replace_after_newline, lemma_split_after_newline,
    lemma_split_lines_nonempty, lemma_trim_after_ws, lemma_trim_bounds, split_lines, starts_with,
    trim,
};

verus! {

/// A display marker line: a block start or a block end.
pub open spec fn is_display_marker(l: Seq<char>) -> bool {
    starts_with(trim(l), display_begin_tag()) || starts_with(trim(l), display_end_tag())
}

/// The lines that are not display markers, in order.
pub open spec fn non_marker_lines(ls: Seq<Seq<char>>) -> Seq<Seq<char>>
    decreases ls.len(),
{
    if ls.len() == 0 {
        Seq::empty()
    } else if is_display_marker(ls.last()) {
        non_marker_lines(ls.drop_last())
    } else {
        non_marker_lines(ls.drop_last()).push(ls.last())
    }
}

/// The number of display blocks open after the lines `ls` (an end marker
/// with no open block is ignored).
pub open spec fn open_depth(ls: Seq<Seq<char>>) -> nat
    decreases ls.len(),
{
    if ls.len() == 0 {
        0
    } else {
        let d = open_depth(ls.drop_last());
        let t = trim(ls.last());
        if starts_with(t, display_begin_tag()) {
            d + 1
        } else if starts_with(t, display_end_tag()) {
            if d > 0 {
                (d - 1) as nat
            } else {
                0
            }
        } else {
            d
        }
    }
}

/// Display blocks never leave a marker line behind: every kept line is a
/// line of the input that is not a marker.
pub proof fn law_display_drops_markers(on: Set<Seq<char>>, ls: Seq<Seq<char>>)
    ensures
        forall|i: int|
            0 <= i < display_fold(on, ls).1.len() ==> exists|j: int|
                0 <= j < ls.len() && #[trigger] display_fold(on, ls).1[i] == ls[j]
                    && !is_display_marker(ls[j]),
    decreases ls.len(),
{
    if ls.len() > 0 {
        let pre = ls.drop_last();
        law_display_drops_markers(on, pre);
        let out = display_fold(on, ls).1;
        let prev = display_fold(on, pre).1;
        assert forall|i: int| 0 <= i < out.len() implies exists|j: int|
            0 <= j < ls.len() && #[trigger] out[i] == ls[j] && !is_display_marker(ls[j]) by {
            if i < prev.len() {
                assert(out[i] == prev[i]);
                let j = choose|j: int|
                    0 <= j < pre.len() && #[trigger] prev[i] == pre[j] && !is_display_marker(
                        pre[j],
                    );
                assert(pre[j] == ls[j]);
            } else {
                assert(out[i] == ls[ls.len() - 1]);
            }
        }
    }
}

/// When every display block that starts in `ls` is switched on, display
/// keeps exactly the lines that are not markers.
pub proof fn law_display_all_on(on: Set<Seq<char>>, ls: Seq<Seq<char>>)
    requires
        forall|i: int|
            0 <= i < ls.len() && starts_with(trim(ls[i]), display_begin_tag()) ==> on.contains(
                #[trigger] display_name(ls[i]),
            ),
    ensures
        display_fold(on, ls) == (0nat, non_marker_lines(ls)),
    decreases ls.len(),
{
    if ls.len() > 0 {
        let pre = ls.drop_last();
        assert forall|i: int|
            0 <= i < pre.len() && starts_with(trim(pre[i]), display_begin_tag()) implies on.contains(
            #[trigger] display_name(pre[i]),
        ) by {
            assert(pre[i] == ls[i]);
        }
        law_display_all_on(on, pre);
        if starts_with(trim(ls.last()), display_begin_tag()) {
            assert(on.contains(display_name(ls[ls.len() - 1])));
        }
    }
}

/// Text without display markers is left as it is, whatever is switched on.
pub proof fn law_display_without_markers(on: Set<Seq<char>>, s: Seq<char>)
    requires
        forall|i: int|
            0 <= i < split_lines(s).len() ==> !is_display_marker(#[trigger] split_lines(s)[i]),
    ensures
        display(on, s) == s,
{
    let ls = split_lines(s);
    law_display_all_on(on, ls);
    lemma_non_marker_identity(ls);
    lemma_join_split(s);
}

proof fn lemma_non_marker_identity(ls: Seq<Seq<char>>)
    requires
        forall|i: int| 0 <= i < ls.len() ==> !is_display_marker(#[trigger] ls[i]),
    ensures
        non_marker_lines(ls) == ls,
    decreases ls.len(),
{
    if ls.len() > 0 {
        let pre = ls.drop_last();
        assert forall|i: int| 0 <= i < pre.len() implies !is_display_marker(#[trigger] pre[i]) by {
            assert(pre[i] == ls[i]);
        }
        lemma_non_marker_identity(pre);
        assert(!is_display_marker(ls[ls.len() - 1]));
        assert(pre.push(ls.last()) =~= ls);
    }
}

/// With nothing switched on, display blocks are hidden: the count of hidden
/// open blocks is the number of open blocks, so a line is kept exactly when
/// no block is open around it.
pub proof fn law_display_all_off(ls: Seq<Seq<char>>, l: Seq<char>)
    ensures
        display_fold(Set::empty(), ls).0 == open_depth(ls),
        !is_display_marker(l) ==> display_fold(Set::empty(), ls.push(l)).1 == if open_depth(ls)
            == 0 {
            display_fold(Set::empty(), ls).1.push(l)
        } else {
            display_fold(Set::empty(), ls).1
        },
    decreases ls.len(),
{
    lemma_display_off_depth(ls);
    assert(ls.push(l).drop_last() =~= ls);
}

proof fn lemma_display_off_depth(ls: Seq<Seq<char>>)
    ensures
        display_fold(Set::empty(), ls).0 == open_depth(ls),
    decreases ls.len(),
{
    if ls.len() > 0 {
        lemma_display_off_depth(ls.drop_last());
    }
}

/// A template with no implementation area marker always expands.
pub proof fn law_expands_without_areas(t: Template)
    requires
        forall|i: int|
            0 <= i < scanned(t.text()).len() ==> #[trigger] scanned(t.text())[i].1
                != LineKind::AreaBegin && scanned(t.text())[i].1 != LineKind::AreaEnd,
    ensures
        expansion(t) is Some,
{
    lemma_read_areas_total(scanned(t.text()));
}

proof fn lemma_read_areas_total(ls: Seq<LineV>)
    requires
        forall|i: int|
            0 <= i < ls.len() ==> #[trigger] ls[i].1 != LineKind::AreaBegin && ls[i].1
                != LineKind::AreaEnd,
    ensures
        read_areas(ls) is Some,
        read_areas(ls)->0.name.len() == 0,
    decreases ls.len(),
{
    if ls.len() > 0 {
        let pre = ls.drop_last();
        assert forall|i: int| 0 <= i < pre.len() implies #[trigger] pre[i].1 != LineKind::AreaBegin
            && pre[i].1 != LineKind::AreaEnd by {
            assert(pre[i] == ls[i]);
        }
        lemma_read_areas_total(pre);
        assert(ls[ls.len() - 1].1 != LineKind::AreaBegin);
    }
}

/// What an expansion gives back is trimmed: it neither starts nor ends with
/// whitespace.
pub proof fn law_expansion_trimmed(params: Pairs, impls: Seq<(Seq<char>, Seq<Pairs>)>, ls: Seq<LineV>)
    ensures
        expand_lines_spec(params, impls, ls) matches Some(s) ==> {
            &&& trim(s) == s
            &&& s.len() > 0 ==> !is_ws(s[0]) && !is_ws(s.last())
        },
{
    if let Some(st) = read_areas(ls) {
        lemma_trim_bounds(
            replace_params(
                display(
                    crate::params::key_set(params),
                    impls_text(params, impls, st.areas, st.content),
                ),
                params,
            ),
        );
    }
}

/// Adding an implementation block of a name already present reuses that
/// block: the blocks after `add_impl(name)` hold `name` exactly once more than
/// before only if it was absent, and looking `name` up finds the list handed
/// out.
pub proof fn law_add_impl_reuses(
    impls: Seq<(Seq<char>, Seq<Pairs>)>,
    name: Seq<char>,
    arms: Seq<Pairs>,
)
    ensures
        ({
            let r = match lookup_index(impls, name) {
                Some(i) => impls.update(i, (name, arms)),
                None => impls.push((name, arms)),
            };
            &&& lookup_index(r, name) matches Some(j) && r[j].1 == arms
            &&& r.len() == if lookup_index(impls, name) is Some {
                impls.len()
            } else {
                impls.len() + 1
            }
        }),
{
    lemma_lookup_index(impls, name);
    match lookup_index(impls, name) {
        Some(i) => {
            let r = impls.update(i, (name, arms));
            lemma_lookup_after_update(impls, name, i, arms);
        },
        None => {
            let r = impls.push((name, arms));
            assert(r.drop_last() =~= impls);
        },
    }
}

proof fn lemma_lookup_after_update(
    l: Seq<(Seq<char>, Seq<Pairs>)>,
    k: Seq<char>,
    i: int,
    v: Seq<Pairs>,
)
    requires
        lookup_index(l, k) == Some(i),
    ensures
        lookup_index(l.update(i, (k, v)), k) == Some(i),
    decreases l.len(),
{
    lemma_lookup_index(l, k);
    let r = l.update(i, (k, v));
    if i < l.len() - 1 {
        assert(l.last().0 != k);
        assert(r.last() == l.last());
        assert(r.drop_last() =~= l.drop_last().update(i, (k, v)));
        lemma_lookup_after_update(l.drop_last(), k, i, v);
    }
}

/// A template whose lines are all plain text (no implementation area, no
/// mark, no display marker) expands to its text with the simple parameters
/// replaced, trimmed.
pub proof fn law_plain_expansion(t: Template)
    requires
        forall|i: int|
            0 <= i < split_lines(t.text()).len() ==> kind_of(#[trigger] split_lines(t.text())[i])
                == LineKind::Text && !is_display_marker(split_lines(t.text())[i]),
    ensures
        expansion(t) == Some(trim(replace_params(t.text(), t.params()))),
{
    let s = t.text();
    let ls = scanned(s);
    let lines = split_lines(s);
    lemma_split_lines_nonempty(s);
    assert forall|i: int| 0 <= i < ls.len() implies #[trigger] ls[i] == (
        lines[i],
        LineKind::Text,
        Seq::<char>::empty(),
    ) by {
        assert(ls[i] == scan_line(lines[i]));
    }
    lemma_plain_scan(ls);
    let st = read_areas(ls)->0;
    let e = (Seq::<char>::empty(), LineKind::Text, Seq::<char>::empty());
    assert(st.content =~= seq![e] + ls);
    lemma_plain_impls_text(t.params(), t.impls(), st.areas, seq![e] + ls);
    let body = seq![e] + ls;
    let texts = body.map_values(|l: LineV| l.0);
    assert(texts =~= seq![Seq::<char>::empty()] + lines);
    // the content is a line break, an empty line, a line break, then the text
    assert(join_lines(texts) == seq!['\n'] + join_lines(lines)) by {
        lemma_join_prepend_empty(lines);
    }
    lemma_join_split(s);
    let applied = seq!['\n'] + (seq!['\n'] + s);
    assert(impls_text(t.params(), t.impls(), st.areas, body) =~= applied);
    lemma_split_after_newline(seq!['\n'] + s);
    lemma_split_after_newline(s);
    let split_applied = split_lines(applied);
    assert(split_applied =~= seq![Seq::<char>::empty(), Seq::<char>::empty()] + lines);
    assert forall|i: int| 0 <= i < split_applied.len() implies !is_display_marker(
        #[trigger] split_applied[i],
    ) by {
        if i >= 2 {
            assert(split_applied[i] == lines[i - 2]);
        } else {
            assert(trim(split_applied[i]).len() == 0);
        }
    }
    law_display_without_markers(crate::params::key_set(t.params()), applied);
    lemma_replace_params_after_newline(seq!['\n'] + s, t.params());
    lemma_replace_params_after_newline(s, t.params());
    let r = replace_params(s, t.params());
    lemma_trim_after_ws('\n', seq!['\n'] + r);
    lemma_trim_after_ws('\n', r);
    assert(seq!['\n'] + (seq!['\n'] + r) =~= seq!['\n'] + (seq!['\n'] + r));
}

proof fn lemma_plain_scan(ls: Seq<LineV>)
    requires
        forall|i: int| 0 <= i < ls.len() ==> (#[trigger] ls[i]).1 == LineKind::Text && ls[i].2
            == Seq::<char>::empty(),
    ensures
        read_areas(ls) == Some(
            AreaScan {
                name: Seq::empty(),
                codes: Seq::empty(),
                content: seq![(Seq::<char>::empty(), LineKind::Text, Seq::<char>::empty())] + ls,
                areas: Seq::empty(),
            },
        ),
    decreases ls.len(),
{
    let e = (Seq::<char>::empty(), LineKind::Text, Seq::<char>::empty());
    if ls.len() == 0 {
        assert(seq![e] + ls =~= seq![e]);
    } else {
        let pre = ls.drop_last();
        assert forall|i: int| 0 <= i < pre.len() implies (#[trigger] pre[i]).1 == LineKind::Text
            && pre[i].2 == Seq::<char>::empty() by {
            assert(pre[i] == ls[i]);
        }
        lemma_plain_scan(pre);
        assert(ls[ls.len() - 1].1 == LineKind::Text);
        assert((seq![e] + pre).push(ls.last()) =~= seq![e] + ls);
    }
}

proof fn lemma_plain_impls_text(
    params: Pairs,
    impls: Seq<(Seq<char>, Seq<Pairs>)>,
    areas: Seq<(Seq<char>, Seq<char>)>,
    ls: Seq<LineV>,
)
    requires
        ls.len() >= 1,
        forall|i: int| 0 <= i < ls.len() ==> (#[trigger] ls[i]).1 == LineKind::Text,
    ensures
        impls_text(params, impls, areas, ls) == seq!['\n'] + join_lines(
            ls.map_values(|l: LineV| l.0),
        ),
    decreases ls.len(),
{
    let pre = ls.drop_last();
    let texts = ls.map_values(|l: LineV| l.0);
    assert(ls[ls.len() - 1].1 == LineKind::Text);
    assert(impl_piece(params, impls, areas, ls.last()) == seq!['\n'] + ls.last().0);
    if ls.len() == 1 {
        assert(pre.len() == 0);
        assert(impls_text(params, impls, areas, pre) == Seq::<char>::empty());
        assert(texts.len() == 1);
        assert(join_lines(texts) == texts[0]);
        assert(Seq::<char>::empty() + (seq!['\n'] + ls.last().0) =~= seq!['\n'] + texts[0]);
    } else {
        assert forall|i: int| 0 <= i < pre.len() implies (#[trigger] pre[i]).1 == LineKind::Text by {
            assert(pre[i] == ls[i]);
        }
        lemma_plain_impls_text(params, impls, areas, pre);
        let ptexts = pre.map_values(|l: LineV| l.0);
        assert(texts.drop_last() =~= ptexts);
        assert(texts.last() == ls.last().0);
        assert(join_lines(texts) == join_lines(ptexts) + seq!['\n'] + texts.last());
        assert((seq!['\n'] + join_lines(ptexts)) + (seq!['\n'] + ls.last().0) =~= seq!['\n'] + (
        join_lines(ptexts) + seq!['\n'] + texts.last()));
    }
}

proof fn lemma_join_prepend_empty(ls: Seq<Seq<char>>)
    requires
        ls.len() >= 1,
    ensures
        join_lines(seq![Seq::<char>::empty()] + ls) == seq!['\n'] + join_lines(ls),
    decreases ls.len(),
{
    let e = seq![Seq::<char>::empty()];
    let x = e + ls;
    assert(x.drop_last() =~= e + ls.drop_last());
    assert(x.last() == ls.last());
    if ls.len() == 1 {
        assert(x.drop_last() =~= e);
        assert(join_lines(e) == Seq::<char>::empty());
        assert(join_lines(ls) == ls[0]);
        assert(Seq::<char>::empty() + seq!['\n'] + ls.last() =~= seq!['\n'] + ls[0]);
    } else {
        lemma_join_prepend_empty(ls.drop_last());
        assert(seq!['\n'] + join_lines(ls.drop_last()) + seq!['\n'] + ls.last() =~= seq!['\n'] + (
        join_lines(ls.drop_last()) + seq!['\n'] + ls.last()));
    }
}

proof fn lemma_replace_params_after_newline(s: Seq<char>, ps: Pairs)
    ensures
        replace_params(seq!['\n'] + s, ps) == seq!['\n'] + replace_params(s, ps),
    decreases ps.len(),
{
    if ps.len() > 0 {
        lemma_replace_params_after_newline(s, ps.drop_last());
        let k = ps.last().0;
        let pat = crate::expand::placeholder(k);
        assert(pat[0] == '<');
        lemma_replace_after_newline(replace_params(s, ps.drop_last()), pat, ps.last().1);
    }
}

/// The area scan continued from `st` over the lines `ls`.
pub open spec fn areas_from(st: Option<AreaScan>, ls: Seq<LineV>) -> Option<AreaScan>
    decreases ls.len(),
{
    if ls.len() == 0 {
        st
    } else {
        area_step(areas_from(st, ls.drop_last()), ls.last())
    }
}

/// The texts of lines.
pub open spec fn line_texts(ls: Seq<LineV>) -> Seq<Seq<char>> {
    ls.map_values(|l: LineV| l.0)
}

/// No line is an area start or an area end.
pub open spec fn no_area_markers(ls: Seq<LineV>) -> bool {
    forall|i: int|
        0 <= i < ls.len() ==> #[trigger] ls[i].1 != LineKind::AreaBegin && ls[i].1
            != LineKind::AreaEnd
}

proof fn lemma_areas_concat(a: Seq<LineV>, b: Seq<LineV>)
    ensures
        read_areas(a + b) == areas_from(read_areas(a), b),
    decreases b.len(),
{
    if b.len() == 0 {
        assert(a + b =~= a);
    } else {
        lemma_areas_concat(a, b.drop_last());
        assert((a + b).drop_last() =~= a + b.drop_last());
        assert((a + b).last() == b.last());
    }
}

proof fn lemma_areas_from_outside(st: AreaScan, ls: Seq<LineV>)
    requires
        st.name.len() == 0,
        no_area_markers(ls),
    ensures
        areas_from(Some(st), ls) == Some(
            AreaScan { name: st.name, codes: st.codes, content: st.content + ls, areas: st.areas },
        ),
    decreases ls.len(),
{
    if ls.len() == 0 {
        assert(st.content + ls =~= st.content);
    } else {
        let pre = ls.drop_last();
        assert forall|i: int| 0 <= i < pre.len() implies #[trigger] pre[i].1 != LineKind::AreaBegin
            && pre[i].1 != LineKind::AreaEnd by {
            assert(pre[i] == ls[i]);
        }
        lemma_areas_from_outside(st, pre);
        assert(ls[ls.len() - 1].1 != LineKind::AreaBegin);
        assert((st.content + pre).push(ls.last()) =~= st.content + ls);
    }
}

proof fn lemma_areas_from_inside(st: AreaScan, ls: Seq<LineV>)
    requires
        st.name.len() > 0,
        no_area_markers(ls),
    ensures
        areas_from(Some(st), ls) == Some(
            AreaScan {
                name: st.name,
                codes: st.codes + line_texts(ls),
                content: st.content,
                areas: st.areas,
            },
        ),
    decreases ls.len(),
{
    if ls.len() == 0 {
        assert(st.codes + line_texts(ls) =~= st.codes);
    } else {
        let pre = ls.drop_last();
        assert forall|i: int| 0 <= i < pre.len() implies #[trigger] pre[i].1 != LineKind::AreaBegin
            && pre[i].1 != LineKind::AreaEnd by {
            assert(pre[i] == ls[i]);
        }
        lemma_areas_from_inside(st, pre);
        assert(ls[ls.len() - 1].1 != LineKind::AreaBegin);
        assert((st.codes + line_texts(pre)).push(ls.last().0) =~= st.codes + line_texts(ls));
    }
}

/// An implementation area is taken out of the text: for lines `before`, an
/// area start named `name` (not empty), lines `code`, an area end, and lines
/// `after`, none of them an area marker, the scan keeps `before` and `after`
/// as content and records one area `name` whose code is the lines of `code`
/// joined with line breaks.
pub proof fn law_area_extracted(
    before: Seq<LineV>,
    begin: LineV,
    code: Seq<LineV>,
    end: LineV,
    after: Seq<LineV>,
)
    requires
        no_area_markers(before),
        no_area_markers(code),
        no_area_markers(after),
        begin.1 == LineKind::AreaBegin,
        begin.2.len() > 0,
        end.1 == LineKind::AreaEnd,
    ensures
        read_areas(before + seq![begin] + code + seq![end] + after) == Some(
            AreaScan {
                name: Seq::empty(),
                codes: Seq::empty(),
                content: seq![(Seq::<char>::empty(), LineKind::Text, Seq::<char>::empty())]
                    + before + after,
                areas: seq![(begin.2, join_lines(line_texts(code)))],
            },
        ),
{
    let e = seq![(Seq::<char>::empty(), LineKind::Text, Seq::<char>::empty())];
    let s0 = crate::expand::scan_start();
    // before
    assert(before =~= Seq::<LineV>::empty() + before);
    lemma_areas_concat(Seq::<LineV>::empty(), before);
    lemma_areas_from_outside(s0, before);
    let s1 = AreaScan { name: s0.name, codes: s0.codes, content: s0.content + before, areas: s0.areas };
    assert(read_areas(before) == Some(s1));
    // begin
    let b1 = before + seq![begin];
    lemma_areas_concat(before, seq![begin]);
    assert(seq![begin].drop_last() =~= Seq::<LineV>::empty());
    assert(areas_from(Some(s1), Seq::<LineV>::empty()) == Some(s1));
    assert(areas_from(Some(s1), seq![begin]) == area_step(Some(s1), begin));
    let s2 = AreaScan { name: begin.2, codes: s1.codes, content: s1.content, areas: s1.areas };
    assert(read_areas(b1) == Some(s2));
    // code
    let b2 = b1 + code;
    lemma_areas_concat(b1, code);
    lemma_areas_from_inside(s2, code);
    let s3 = AreaScan {
        name: begin.2,
        codes: s2.codes + line_texts(code),
        content: s2.content,
        areas: s2.areas,
    };
    assert(read_areas(b2) == Some(s3));
    // end
    let b3 = b2 + seq![end];
    lemma_areas_concat(b2, seq![end]);
    assert(seq![end].drop_last() =~= Seq::<LineV>::empty());
    assert(areas_from(Some(s3), Seq::<LineV>::empty()) == Some(s3));
    assert(areas_from(Some(s3), seq![end]) == area_step(Some(s3), end));
    assert(s2.codes + line_texts(code) =~= line_texts(code));
    let s4 = AreaScan {
        name: Seq::empty(),
        codes: Seq::empty(),
        content: s3.content,
        areas: s3.areas.push((begin.2, join_lines(line_texts(code)))),
    };
    assert(read_areas(b3) == Some(s4));
    // after
    lemma_areas_concat(b3, after);
    lemma_areas_from_outside(s4, after);
    assert(s0.content + before + after =~= e + before + after);
    assert(s4.areas =~= seq![(begin.2, join_lines(line_texts(code)))]);
}

/// An area's code with no display marker is copied for a parameter set with
/// just that set's placeholders replaced.
pub proof fn law_arm_without_display(params: Pairs, code: Seq<char>, item: Pairs)
    requires
        forall|i: int|
            0 <= i < split_lines(code).len() ==> !is_display_marker(
                #[trigger] split_lines(code)[i],
            ),
    ensures
        arm_text(params, code, item) == replace_params(code, item),
{
    law_display_without_markers(
        crate::params::key_set(params).union(crate::params::key_set(item)),
        code,
    );
}

/// The names of the display blocks open after the lines `ls`, outermost
/// first (an end marker with no open block is ignored).
pub open spec fn open_blocks(ls: Seq<Seq<char>>) -> Seq<Seq<char>>
    decreases ls.len(),
{
    if ls.len() == 0 {
        Seq::empty()
    } else {
        let st = open_blocks(ls.drop_last());
        let t = trim(ls.last());
        if starts_with(t, display_begin_tag()) {
            st.push(display_name(ls.last()))
        } else if starts_with(t, display_end_tag()) {
            if st.len() > 0 {
                st.drop_last()
            } else {
                st
            }
        } else {
            st
        }
    }
}

/// Every name of `names` is switched on.
pub open spec fn all_on(on: Set<Seq<char>>, names: Seq<Seq<char>>) -> bool {
    forall|i: int| 0 <= i < names.len() ==> on.contains(#[trigger] names[i])
}

/// The number of open blocks from the outermost one switched off (0 when
/// all are on).
spec fn hidden_of(on: Set<Seq<char>>, st: Seq<Seq<char>>) -> nat
    decreases st.len(),
{
    if st.len() == 0 {
        0
    } else {
        let h = hidden_of(on, st.drop_last());
        if h > 0 {
            h + 1
        } else if on.contains(st.last()) {
            0
        } else {
            1
        }
    }
}

proof fn lemma_hidden_of_zero(on: Set<Seq<char>>, st: Seq<Seq<char>>)
    ensures
        (hidden_of(on, st) == 0) == all_on(on, st),
    decreases st.len(),
{
    if st.len() > 0 {
        let pre = st.drop_last();
        lemma_hidden_of_zero(on, pre);
        if all_on(on, st) {
            assert forall|i: int| 0 <= i < pre.len() implies on.contains(#[trigger] pre[i]) by {
                assert(pre[i] == st[i]);
            }
            assert(on.contains(st[st.len() - 1]));
        }
        if hidden_of(on, st) == 0 {
            assert forall|i: int| 0 <= i < st.len() implies on.contains(#[trigger] st[i]) by {
                if i < st.len() - 1 {
                    assert(pre[i] == st[i]);
                }
            }
        }
    }
}

proof fn lemma_hidden_is_fold(on: Set<Seq<char>>, ls: Seq<Seq<char>>)
    ensures
        display_fold(on, ls).0 == hidden_of(on, open_blocks(ls)),
    decreases ls.len(),
{
    if ls.len() > 0 {
        let pre = ls.drop_last();
        lemma_hidden_is_fold(on, pre);
        let st = open_blocks(pre);
        let t = trim(ls.last());
        if starts_with(t, display_begin_tag()) {
            assert(st.push(display_name(ls.last())).drop_last() =~= st);
        } else if starts_with(t, display_end_tag()) && st.len() > 0 {
            assert(st.drop_last() =~= st.drop_last());
        }
    }
}

/// A line is kept by the display pass exactly when it is not a marker and
/// every display block open around it is switched on.
pub proof fn law_display_kept(on: Set<Seq<char>>, ls: Seq<Seq<char>>, l: Seq<char>)
    ensures
        display_fold(on, ls.push(l)).1 == if !is_display_marker(l) && all_on(on, open_blocks(ls)) {
            display_fold(on, ls).1.push(l)
        } else {
            display_fold(on, ls).1
        },
{
    lemma_hidden_is_fold(on, ls);
    lemma_hidden_of_zero(on, open_blocks(ls));
    assert(ls.push(l).drop_last() =~= ls);
}


/// The area start that line `i` stands under: looking back from `i`, the
/// nearest area start with a name, unless an area end comes first.
pub open spec fn open_area_before(ls: Seq<LineV>, i: int) -> Option<int>
    decreases i,
{
    if i <= 0 || i > ls.len() {
        None
    } else if ls[i - 1].1 == LineKind::AreaEnd {
        None
    } else if ls[i - 1].1 == LineKind::AreaBegin && ls[i - 1].2.len() > 0 {
        Some(i - 1)
    } else {
        open_area_before(ls, i - 1)
    }
}

/// The lines before line `n` that stand outside every area, area markers
/// left out, in order.
pub open spec fn outside_lines(ls: Seq<LineV>, n: int) -> Seq<LineV>
    decreases n,
{
    if n <= 0 || n > ls.len() {
        Seq::empty()
    } else {
        let l = ls[n - 1];
        if (l.1 == LineKind::Text || l.1 == LineKind::Mark) && open_area_before(ls, n - 1) is None {
            outside_lines(ls, n - 1).push(l)
        } else {
            outside_lines(ls, n - 1)
        }
    }
}

/// The areas closed before line `n`, in order: for each area end under an
/// area start, the start's name and the texts of the lines between the two,
/// joined with line breaks.
pub open spec fn closed_areas(ls: Seq<LineV>, n: int) -> Seq<(Seq<char>, Seq<char>)>
    decreases n,
{
    if n <= 0 || n > ls.len() {
        Seq::empty()
    } else {
        match open_area_before(ls, n - 1) {
            Some(b) => if ls[n - 1].1 == LineKind::AreaEnd {
                closed_areas(ls, n - 1).push(
                    (ls[b].2, join_lines(line_texts(ls.subrange(b + 1, n - 1)))),
                )
            } else {
                closed_areas(ls, n - 1)
            },
            None => closed_areas(ls, n - 1),
        }
    }
}

proof fn lemma_open_area_bounds(ls: Seq<LineV>, i: int)
    ensures
        open_area_before(ls, i) matches Some(b) ==> 0 <= b < i && ls[b].1 == LineKind::AreaBegin
            && ls[b].2.len() > 0,
    decreases i,
{
    if 0 < i <= ls.len() {
        lemma_open_area_bounds(ls, i - 1);
    }
}

proof fn lemma_area_scan_prefix(ls: Seq<LineV>, n: int)
    requires
        0 <= n <= ls.len(),
        read_areas(ls.take(n)) is Some,
    ensures
        ({
            let st = read_areas(ls.take(n)).unwrap();
            &&& st.content == scan_start().content + outside_lines(ls, n)
            &&& st.areas == closed_areas(ls, n)
            &&& match open_area_before(ls, n) {
                None => st.name.len() == 0 && st.codes.len() == 0,
                Some(b) => st.name == ls[b].2 && st.name.len() > 0 && st.codes == line_texts(
                    ls.subrange(b + 1, n),
                ),
            }
        }),
    decreases n,
{
    if n == 0 {
        assert(ls.take(0) =~= Seq::<LineV>::empty());
        assert(scan_start().content + outside_lines(ls, 0) =~= scan_start().content);
    } else {
        assert(ls.take(n).drop_last() =~= ls.take(n - 1));
        assert(ls.take(n).last() == ls[n - 1]);
        lemma_area_scan_prefix(ls, n - 1);
        lemma_open_area_bounds(ls, n - 1);
        let prev = read_areas(ls.take(n - 1)).unwrap();
        let l = ls[n - 1];
        assert(read_areas(ls.take(n)) == area_step(Some(prev), l));
        if l.1 == LineKind::Text || l.1 == LineKind::Mark {
            match open_area_before(ls, n - 1) {
                Some(b) => {
                    assert(line_texts(ls.subrange(b + 1, n)) =~= line_texts(
                        ls.subrange(b + 1, n - 1),
                    ).push(l.0));
                },
                None => {
                    assert(scan_start().content + outside_lines(ls, n) =~= (scan_start().content
                        + outside_lines(ls, n - 1)).push(l));
                },
            }
        } else if l.1 == LineKind::AreaBegin && l.2.len() > 0 {
            assert(line_texts(ls.subrange(n, n)) =~= Seq::<Seq<char>>::empty());
        }
    }
}

/// What the area scan keeps, line by line: when the areas pair up, the
/// content is an empty line followed by the lines that stand outside every
/// area (area markers left out), in order; the areas are, in order, one per
/// area end, named by its area start and holding the lines between the two
/// joined with line breaks; an area still open at the end is in neither. A
/// name is looked up to the last area of that name.
pub proof fn law_area_scan(ls: Seq<LineV>)
    requires
        read_areas(ls) is Some,
    ensures
        read_areas(ls).unwrap().content == scan_start().content + outside_lines(
            ls,
            ls.len() as int,
        ),
        read_areas(ls).unwrap().areas == closed_areas(ls, ls.len() as int),
        (read_areas(ls).unwrap().name.len() > 0) == (open_area_before(ls, ls.len() as int) is Some),
        forall|n: Seq<char>|
            #[trigger] lookup_index(read_areas(ls).unwrap().areas, n) matches Some(k) ==> {
                let a = read_areas(ls).unwrap().areas;
                &&& 0 <= k < a.len()
                &&& a[k].0 == n
                &&& forall|j: int| k < j < a.len() ==> a[j].0 != n
            },
{
    assert(ls.take(ls.len() as int) =~= ls);
    lemma_area_scan_prefix(ls, ls.len() as int);
    let a = read_areas(ls).unwrap().areas;
    assert forall|n: Seq<char>|
        #[trigger] lookup_index(a, n) matches Some(k) ==> {
            &&& 0 <= k < a.len()
            &&& a[k].0 == n
            &&& forall|j: int| k < j < a.len() ==> a[j].0 != n
        } by {
        lemma_lookup_index(a, n);
    }
}

/// The implementation pass is the concatenation of what each content line
/// becomes, in order.
pub proof fn law_impls_text_concat(
    params: Pairs,
    impls: Seq<(Seq<char>, Seq<Pairs>)>,
    areas: Seq<(Seq<char>, Seq<char>)>,
    ls: Seq<LineV>,
)
    ensures
        impls_text(params, impls, areas, ls) == ls.map_values(
            |l: LineV| impl_piece(params, impls, areas, l),
        ).flatten(),
    decreases ls.len(),
{
    let f = |l: LineV| impl_piece(params, impls, areas, l);
    if ls.len() == 0 {
        assert(ls.map_values(f) =~= Seq::<Seq<char>>::empty());
    } else {
        law_impls_text_concat(params, impls, areas, ls.drop_last());
        assert(ls.map_values(f) =~= ls.drop_last().map_values(f).push(f(ls.last())));
        ls.drop_last().map_values(f).lemma_flatten_push(f(ls.last()));
    }
}

} // verus!
