//! What implementation blocks and line kinds do, for every input: each mark
//! gets one copy of its area per parameter set, each copy made from that
//! set's values; marks without copies leave nothing; and a line's kind and a
//! mark's name do not depend on the line's indentation.
use vstd::prelude::*;

use crate::basic::{basic_arms, basic_expand_spec, basic_impls_text, basic_piece, block_items};
use crate::expand::{
    area_arms, area_begin_tag, area_end_tag, display, expand_lines_spec, impl_piece, impls_text,
    kind_of, mark_tag, raw_name, replace_params, LineKind, LineV,
};
use crate::laws::{
    is_display_marker, law_area_extracted, law_display_without_markers, law_impls_text_concat,
    line_texts,
};
use crate::params::{key_set, Pairs};
use crate::template::lookup_index;
use vstd::seq_lib::lemma_flatten_concat;
use crate::text::{
    is_ws, join_lines, lemma_trim_bounds, split_lines, starts_with, trim, trim_end, trim_start,
};

verus! {

/// No line of `code` is a display marker.
pub open spec fn no_display_markers(code: Seq<char>) -> bool {
    forall|i: int|
        0 <= i < split_lines(code).len() ==> !is_display_marker(#[trigger] split_lines(code)[i])
}

/// `w` is whitespace only.
pub open spec fn all_ws(w: Seq<char>) -> bool {
    forall|i: int| 0 <= i < w.len() ==> is_ws(#[trigger] w[i])
}

proof fn lemma_trim_start_ws(w: Seq<char>, l: Seq<char>)
    requires
        all_ws(w),
    ensures
        trim_start(w + l) == trim_start(l),
    decreases w.len(),
{
    if w.len() > 0 {
        assert((w + l).drop_first() =~= w.drop_first() + l);
        assert(is_ws(w[0]));
        lemma_trim_start_ws(w.drop_first(), l);
    } else {
        assert(w + l =~= l);
    }
}

/// A line's kind is decided by its text with surrounding whitespace trimmed:
/// it is an area end when that text starts with `@@@ <<<`, else an area start
/// when it starts with `@@@ >>> `, else a mark when it starts with
/// `>>>>>>>>>>`, else text. So indentation never changes a line's kind, nor
/// the name that a mark carries.
pub proof fn law_kind_by_trimmed_text(w: Seq<char>, l: Seq<char>)
    requires
        all_ws(w),
    ensures
        kind_of(l) == kind_of(trim(l)),
        kind_of(w + l) == kind_of(l),
        (kind_of(l) == LineKind::AreaEnd) == starts_with(trim(l), area_end_tag()),
        (kind_of(l) == LineKind::AreaBegin) == (!starts_with(trim(l), area_end_tag()) && starts_with(
            trim(l),
            area_begin_tag(),
        )),
        (kind_of(l) == LineKind::Mark) == (!starts_with(trim(l), area_end_tag()) && !starts_with(
            trim(l),
            area_begin_tag(),
        ) && starts_with(trim(l), mark_tag())),
        kind_of(l) == LineKind::Mark ==> raw_name(w + l) == raw_name(l),
{
    lemma_trim_bounds(l);
    lemma_trim_start_ws(w, l);
    assert(trim(w + l) == trim(l));
}

/// Each expansion of an area is made from its own parameter set: there is
/// one per set, in order; the display blocks of the copy for set `i` are
/// switched on by the simple parameters' keys and set `i`'s keys, and then
/// set `i`'s placeholders are replaced. For code without display markers the
/// copy for set `i` is the code with set `i`'s placeholders replaced: the
/// simple parameters take no part in it, so a key of the set keeps the set's
/// value even when a simple parameter has the same key.
pub proof fn law_copies_per_set(params: Pairs, code: Seq<char>, items: Seq<Pairs>)
    ensures
        area_arms(params, code, items).len() == items.len(),
        forall|i: int|
            0 <= i < items.len() ==> #[trigger] area_arms(params, code, items)[i] == replace_params(
                display(key_set(params).union(key_set(items[i])), code),
                items[i],
            ),
        no_display_markers(code) ==> forall|i: int|
            0 <= i < items.len() ==> #[trigger] area_arms(params, code, items)[i] == replace_params(
                code,
                items[i],
            ),
{
    if no_display_markers(code) {
        assert forall|i: int| 0 <= i < items.len() implies #[trigger] area_arms(
            params,
            code,
            items,
        )[i] == replace_params(code, items[i]) by {
            law_display_without_markers(key_set(params).union(key_set(items[i])), code);
        }
    }
}

/// A mark whose name has an area and a non-empty block becomes a line break
/// followed by one copy of the area's code per parameter set, in order,
/// joined with line breaks; without display markers in the code, copy `i`
/// is the code with set `i`'s placeholders replaced.
pub proof fn law_mark_copies(
    params: Pairs,
    impls: Seq<(Seq<char>, Seq<Pairs>)>,
    areas: Seq<(Seq<char>, Seq<char>)>,
    l: LineV,
    ai: int,
    ii: int,
)
    requires
        l.1 == LineKind::Mark,
        lookup_index(areas, l.2) == Some(ai),
        lookup_index(impls, l.2) == Some(ii),
        impls[ii].1.len() > 0,
        no_display_markers(areas[ai].1),
    ensures
        impl_piece(params, impls, areas, l) == seq!['\n'] + join_lines(
            Seq::new(impls[ii].1.len(), |i: int| replace_params(areas[ai].1, impls[ii].1[i])),
        ),
{
    law_copies_per_set(params, areas[ai].1, impls[ii].1);
    assert(area_arms(params, areas[ai].1, impls[ii].1) =~= Seq::new(
        impls[ii].1.len(),
        |i: int| replace_params(areas[ai].1, impls[ii].1[i]),
    ));
}

/// A mark gets no copy: its name has no area, no block, or a block with no
/// parameter set.
pub open spec fn gets_no_copy(
    impls: Seq<(Seq<char>, Seq<Pairs>)>,
    areas: Seq<(Seq<char>, Seq<char>)>,
    name: Seq<char>,
) -> bool {
    match lookup_index(areas, name) {
        None => true,
        Some(_) => match lookup_index(impls, name) {
            None => true,
            Some(ii) => impls[ii].1.len() == 0,
        },
    }
}

/// Marks that get no copy leave nothing: when no mark of `ls` gets a copy,
/// the implementation pass gives every line that is not a mark, each after a
/// line break, in order, and nothing else.
pub proof fn law_marks_without_copies(
    params: Pairs,
    impls: Seq<(Seq<char>, Seq<Pairs>)>,
    areas: Seq<(Seq<char>, Seq<char>)>,
    ls: Seq<LineV>,
)
    requires
        forall|i: int|
            0 <= i < ls.len() && #[trigger] ls[i].1 == LineKind::Mark ==> gets_no_copy(
                impls,
                areas,
                ls[i].2,
            ),
    ensures
        impls_text(params, impls, areas, ls) == ls.filter(|l: LineV| l.1 != LineKind::Mark).map_values(
            |l: LineV| seq!['\n'] + l.0,
        ).flatten(),
    decreases ls.len(),
{
    let p = |l: LineV| l.1 != LineKind::Mark;
    let f = |l: LineV| seq!['\n'] + l.0;
    if ls.len() == 0 {
        assert(ls.filter(p).map_values(f) =~= Seq::<Seq<char>>::empty());
    } else {
        let pre = ls.drop_last();
        assert forall|i: int|
            0 <= i < pre.len() && #[trigger] pre[i].1 == LineKind::Mark implies gets_no_copy(
            impls,
            areas,
            pre[i].2,
        ) by {
            assert(pre[i] == ls[i]);
        }
        law_marks_without_copies(params, impls, areas, pre);
        let last = ls.last();
        assert(pre.push(last) =~= ls);
        pre.lemma_filter_push(last, p);
        if last.1 == LineKind::Mark {
            assert(ls[ls.len() - 1].1 == LineKind::Mark);
            assert(ls.filter(p) == pre.filter(p));
            assert(impl_piece(params, impls, areas, last) =~= Seq::<char>::empty());
            assert(impls_text(params, impls, areas, ls) =~= impls_text(params, impls, areas, pre));
        } else {
            assert(ls.filter(p) == pre.filter(p).push(last));
            assert(ls.filter(p).map_values(f) =~= pre.filter(p).map_values(f).push(f(last)));
            pre.filter(p).map_values(f).lemma_flatten_push(f(last));
        }
    }
}

/// In the basic dialect there is one copy per parameter set, in order, copy
/// `i` being the code with set `i`'s placeholders replaced.
pub proof fn law_basic_copies_per_set(code: Seq<char>, items: Seq<Pairs>)
    ensures
        basic_arms(code, items).len() == items.len(),
        forall|i: int|
            0 <= i < items.len() ==> #[trigger] basic_arms(code, items)[i] == replace_params(
                code,
                items[i],
            ),
{
}

/// In the basic dialect a mark whose name has an area becomes a line break
/// followed by one copy of the area's code per parameter set of its block
/// (none when there is no block), in order, joined with line breaks.
pub proof fn law_basic_mark_copies(
    impls: Seq<(Seq<char>, Seq<Pairs>)>,
    areas: Seq<(Seq<char>, Seq<char>)>,
    l: LineV,
    ai: int,
)
    requires
        l.1 == LineKind::Mark,
        lookup_index(areas, l.2) == Some(ai),
    ensures
        basic_piece(impls, areas, l) == seq!['\n'] + join_lines(
            Seq::new(
                block_items(impls, l.2).len(),
                |i: int| replace_params(areas[ai].1, block_items(impls, l.2)[i]),
            ),
        ),
        lookup_index(impls, l.2) is None ==> basic_piece(impls, areas, l) == seq!['\n'],
        lookup_index(impls, l.2) matches Some(ii) ==> block_items(impls, l.2) == impls[ii].1,
{
    let items = block_items(impls, l.2);
    law_basic_copies_per_set(areas[ai].1, items);
    assert(basic_arms(areas[ai].1, items) =~= Seq::new(
        items.len(),
        |i: int| replace_params(areas[ai].1, items[i]),
    ));
    if lookup_index(impls, l.2) is None {
        assert(Seq::new(items.len(), |i: int| replace_params(areas[ai].1, items[i])) =~= Seq::<
            Seq<char>,
        >::empty());
        assert(join_lines(Seq::<Seq<char>>::empty()) =~= Seq::<char>::empty());
        assert(seq!['\n'] + Seq::<char>::empty() =~= seq!['\n']);
    }
}

/// In the basic dialect a mark whose name has no area leaves nothing: when
/// no mark of `ls` names an area, the implementation pass gives every line
/// that is not a mark, each after a line break, in order, and nothing else.
pub proof fn law_basic_marks_without_area(
    impls: Seq<(Seq<char>, Seq<Pairs>)>,
    areas: Seq<(Seq<char>, Seq<char>)>,
    ls: Seq<LineV>,
)
    requires
        forall|i: int|
            0 <= i < ls.len() && #[trigger] ls[i].1 == LineKind::Mark ==> lookup_index(
                areas,
                ls[i].2,
            ) is None,
    ensures
        basic_impls_text(impls, areas, ls) == ls.filter(|l: LineV| l.1 != LineKind::Mark).map_values(
            |l: LineV| seq!['\n'] + l.0,
        ).flatten(),
    decreases ls.len(),
{
    let p = |l: LineV| l.1 != LineKind::Mark;
    let f = |l: LineV| seq!['\n'] + l.0;
    if ls.len() == 0 {
        assert(ls.filter(p).map_values(f) =~= Seq::<Seq<char>>::empty());
    } else {
        let pre = ls.drop_last();
        assert forall|i: int|
            0 <= i < pre.len() && #[trigger] pre[i].1 == LineKind::Mark implies lookup_index(
            areas,
            pre[i].2,
        ) is None by {
            assert(pre[i] == ls[i]);
        }
        law_basic_marks_without_area(impls, areas, pre);
        let last = ls.last();
        assert(pre.push(last) =~= ls);
        pre.lemma_filter_push(last, p);
        if last.1 == LineKind::Mark {
            assert(ls[ls.len() - 1].1 == LineKind::Mark);
            assert(ls.filter(p) == pre.filter(p));
            assert(basic_piece(impls, areas, last) =~= Seq::<char>::empty());
            assert(basic_impls_text(impls, areas, ls) =~= basic_impls_text(impls, areas, pre));
        } else {
            assert(ls.filter(p) == pre.filter(p).push(last));
            assert(ls.filter(p).map_values(f) =~= pre.filter(p).map_values(f).push(f(last)));
            pre.filter(p).map_values(f).lemma_flatten_push(f(last));
        }
    }
}


/// Lines of plain text, each after a line break.
pub open spec fn text_block(ls: Seq<LineV>) -> Seq<char> {
    ls.map_values(|l: LineV| seq!['\n'] + l.0).flatten()
}

/// A template made of text lines, an implementation area `name` holding code
/// lines, and a mark `name` whose block has parameter sets expands to the
/// text lines followed by one copy of the code per set, in order and joined
/// with line breaks, copy `i` being the code with set `i`'s placeholders
/// replaced; only then are display blocks resolved by the simple parameters'
/// keys and the simple parameters replaced over the whole text, which is
/// trimmed. So inside a copy a key of the set takes the set's value, whatever
/// the simple parameters hold.
pub proof fn law_block_expansion(
    params: Pairs,
    impls: Seq<(Seq<char>, Seq<Pairs>)>,
    before: Seq<LineV>,
    begin: LineV,
    code: Seq<LineV>,
    end: LineV,
    mark: LineV,
    ii: int,
)
    requires
        forall|i: int| 0 <= i < before.len() ==> #[trigger] before[i].1 == LineKind::Text,
        forall|i: int| 0 <= i < code.len() ==> #[trigger] code[i].1 == LineKind::Text,
        begin.1 == LineKind::AreaBegin,
        begin.2.len() > 0,
        end.1 == LineKind::AreaEnd,
        mark.1 == LineKind::Mark,
        mark.2 == begin.2,
        lookup_index(impls, mark.2) == Some(ii),
        impls[ii].1.len() > 0,
        no_display_markers(join_lines(line_texts(code))),
    ensures
        expand_lines_spec(params, impls, before + seq![begin] + code + seq![end] + seq![mark])
            == Some(
            trim(
                replace_params(
                    display(
                        key_set(params),
                        seq!['\n'] + text_block(before) + seq!['\n'] + join_lines(
                            Seq::new(
                                impls[ii].1.len(),
                                |i: int|
                                    replace_params(join_lines(line_texts(code)), impls[ii].1[i]),
                            ),
                        ),
                    ),
                    params,
                ),
            ),
        ),
{
    let e: LineV = (Seq::<char>::empty(), LineKind::Text, Seq::<char>::empty());
    let body = join_lines(line_texts(code));
    let areas = seq![(begin.2, body)];
    let content = seq![e] + before + seq![mark];
    law_area_extracted(before, begin, code, end, seq![mark]);
    assert(content =~= seq![e] + before + seq![mark]);
    assert(areas.drop_last() =~= Seq::<(Seq<char>, Seq<char>)>::empty());
    assert(lookup_index(areas, mark.2) == Some(0int));
    law_mark_copies(params, impls, areas, mark, 0, ii);
    let g = |l: LineV| impl_piece(params, impls, areas, l);
    let f = |l: LineV| seq!['\n'] + l.0;
    law_impls_text_concat(params, impls, areas, content);
    let pm = impl_piece(params, impls, areas, mark);
    assert(content.map_values(g) =~= seq![g(e)] + before.map_values(f) + seq![pm]) by {
        assert forall|i: int| 0 <= i < before.len() implies #[trigger] g(before[i]) == f(
            before[i],
        ) by {
            assert(before[i].1 == LineKind::Text);
        }
    }
    assert(g(e) =~= seq!['\n']);
    lemma_flatten_concat(seq![g(e)] + before.map_values(f), seq![pm]);
    lemma_flatten_concat(seq![g(e)], before.map_values(f));
    seq![g(e)].lemma_flatten_one_element();
    seq![pm].lemma_flatten_one_element();
    assert(impls_text(params, impls, areas, content) =~= seq!['\n'] + text_block(before) + pm);
    let copies = Seq::new(
        impls[ii].1.len(),
        |i: int| replace_params(body, impls[ii].1[i]),
    );
    assert(areas[0].1 == body);
    assert(pm == seq!['\n'] + join_lines(copies));
    assert(seq!['\n'] + text_block(before) + pm =~= seq!['\n'] + text_block(before) + seq!['\n']
        + join_lines(copies));
}


proof fn lemma_basic_concat(
    impls: Seq<(Seq<char>, Seq<Pairs>)>,
    areas: Seq<(Seq<char>, Seq<char>)>,
    ls: Seq<LineV>,
)
    ensures
        basic_impls_text(impls, areas, ls) == ls.map_values(
            |l: LineV| basic_piece(impls, areas, l),
        ).flatten(),
    decreases ls.len(),
{
    let g = |l: LineV| basic_piece(impls, areas, l);
    if ls.len() == 0 {
        assert(ls.map_values(g) =~= Seq::<Seq<char>>::empty());
    } else {
        lemma_basic_concat(impls, areas, ls.drop_last());
        assert(ls.map_values(g) =~= ls.drop_last().map_values(g).push(g(ls.last())));
        ls.drop_last().map_values(g).lemma_flatten_push(g(ls.last()));
    }
}

/// In the basic dialect, a template made of text lines, an implementation
/// area `name` holding code lines, and a mark `name` expands to the text
/// lines followed by one copy of the code per parameter set of block `name`
/// (none without such a block), in order and joined with line breaks, copy
/// `i` being the code with set `i`'s placeholders replaced; the simple
/// parameters are then replaced over the whole text, which is trimmed.
pub proof fn law_basic_block_expansion(
    params: Pairs,
    impls: Seq<(Seq<char>, Seq<Pairs>)>,
    before: Seq<LineV>,
    begin: LineV,
    code: Seq<LineV>,
    end: LineV,
    mark: LineV,
)
    requires
        forall|i: int| 0 <= i < before.len() ==> #[trigger] before[i].1 == LineKind::Text,
        forall|i: int| 0 <= i < code.len() ==> #[trigger] code[i].1 == LineKind::Text,
        begin.1 == LineKind::AreaBegin,
        begin.2.len() > 0,
        end.1 == LineKind::AreaEnd,
        mark.1 == LineKind::Mark,
        mark.2 == begin.2,
    ensures
        basic_expand_spec(params, impls, before + seq![begin] + code + seq![end] + seq![mark])
            == Some(
            trim(
                replace_params(
                    seq!['\n'] + text_block(before) + seq!['\n'] + join_lines(
                        Seq::new(
                            block_items(impls, mark.2).len(),
                            |i: int|
                                replace_params(
                                    join_lines(line_texts(code)),
                                    block_items(impls, mark.2)[i],
                                ),
                        ),
                    ),
                    params,
                ),
            ),
        ),
{
    let e: LineV = (Seq::<char>::empty(), LineKind::Text, Seq::<char>::empty());
    let body = join_lines(line_texts(code));
    let areas = seq![(begin.2, body)];
    let content = seq![e] + before + seq![mark];
    law_area_extracted(before, begin, code, end, seq![mark]);
    assert(areas.drop_last() =~= Seq::<(Seq<char>, Seq<char>)>::empty());
    assert(lookup_index(areas, mark.2) == Some(0int));
    law_basic_mark_copies(impls, areas, mark, 0);
    let g = |l: LineV| basic_piece(impls, areas, l);
    let f = |l: LineV| seq!['\n'] + l.0;
    lemma_basic_concat(impls, areas, content);
    let pm = basic_piece(impls, areas, mark);
    assert(content.map_values(g) =~= seq![g(e)] + before.map_values(f) + seq![pm]) by {
        assert forall|i: int| 0 <= i < before.len() implies #[trigger] g(before[i]) == f(
            before[i],
        ) by {
            assert(before[i].1 == LineKind::Text);
        }
    }
    assert(g(e) =~= seq!['\n']);
    lemma_flatten_concat(seq![g(e)] + before.map_values(f), seq![pm]);
    lemma_flatten_concat(seq![g(e)], before.map_values(f));
    seq![g(e)].lemma_flatten_one_element();
    seq![pm].lemma_flatten_one_element();
    let items = block_items(impls, mark.2);
    let copies = Seq::new(items.len(), |i: int| replace_params(body, items[i]));
    assert(areas[0].1 == body);
    assert(pm == seq!['\n'] + join_lines(copies));
    assert(basic_impls_text(impls, areas, content) =~= seq!['\n'] + text_block(before)
        + seq!['\n'] + join_lines(copies));
}

} // verus!
