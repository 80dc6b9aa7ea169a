//! Template expansion.
//!
//! A template is read line by line:
//! - `@@@ >>> name` ... `@@@ <<<` declares the implementation area `name`;
//!   its lines are removed from the text;
//! - a line starting with `>>>>>>>>>> name` is replaced by one copy of area
//!   `name` per parameter set of the implementation block `name`, with the
//!   set's `<<<key>>>` placeholders replaced;
//! - `??? >>> name` ... `??? <<<` is a display block, kept (without its
//!   markers) only when `name` is a parameter, and every enclosing display
//!   block is kept as well;
//! - the simple parameters then replace their `<<<key>>>` placeholders, and
//!   the result is trimmed.
use vstd::prelude::*;

use crate::params::{has_key, key_set, keys_unique, lemma_pairs_insert, Pairs, Params};
use crate::template::{arms_view, lemma_lookup_index, lookup_index, Template};
use crate::text::{
    append_chars, chars_of, copy_chars, join_lines, join_lines_chars, lines_view, replace_all,
    replace_chars, split_lines, split_lines_chars, starts_with, starts_with_at, string_of,
    strip_prefix_all, strip_prefix_all_chars, trim, trim_chars,
};

verus! {

/// What a template line is, by its trimmed text.
#[derive(PartialEq, Eq, Structural, Clone, Copy, Debug)]
pub enum LineKind {
    /// `@@@ <<<`: end of an implementation area.
    AreaEnd,
    /// `@@@ >>> name`: start of an implementation area.
    AreaBegin,
    /// `>>>>>>>>>> name`: where an implementation block goes.
    Mark,
    /// Any other line.
    Text,
}

/// A template line with its kind and, for an area start or a mark, the
/// normalized name that it carries.
pub struct TemplateLine {
    pub text: Vec<char>,
    pub kind: LineKind,
    pub name: Vec<char>,
}

/// A line as (text, kind, name).
pub type LineV = (Seq<char>, LineKind, Seq<char>);

pub open spec fn line_view(l: TemplateLine) -> LineV {
    (l.text@, l.kind, l.name@)
}

pub open spec fn lines_of(ls: Seq<TemplateLine>) -> Seq<LineV> {
    ls.map_values(|l: TemplateLine| line_view(l))
}

/// The views of (name, code) areas.
pub open spec fn areas_view(a: Seq<(Vec<char>, Vec<char>)>) -> Seq<(Seq<char>, Seq<char>)> {
    a.map_values(|e: (Vec<char>, Vec<char>)| (e.0@, e.1@))
}

pub open spec fn area_begin_tag() -> Seq<char> {
    seq!['@', '@', '@', ' ', '>', '>', '>', ' ']
}

pub open spec fn area_end_tag() -> Seq<char> {
    seq!['@', '@', '@', ' ', '<', '<', '<']
}

pub open spec fn mark_tag() -> Seq<char> {
    seq!['>', '>', '>', '>', '>', '>', '>', '>', '>', '>']
}

pub open spec fn display_begin_tag() -> Seq<char> {
    seq!['?', '?', '?', ' ', '>', '>', '>', ' ']
}

pub open spec fn display_end_tag() -> Seq<char> {
    seq!['?', '?', '?', ' ', '<', '<', '<']
}

/// The placeholder `<<<k>>>`.
pub open spec fn placeholder(k: Seq<char>) -> Seq<char> {
    seq!['<', '<', '<'] + k + seq!['>', '>', '>']
}

/// The kind of a line, by its trimmed text.
pub open spec fn kind_of(l: Seq<char>) -> LineKind {
    let t = trim(l);
    if starts_with(t, area_end_tag()) {
        LineKind::AreaEnd
    } else if starts_with(t, area_begin_tag()) {
        LineKind::AreaBegin
    } else if starts_with(t, mark_tag()) {
        LineKind::Mark
    } else {
        LineKind::Text
    }
}

/// The name that an area start or a mark carries, before normalization. For
/// an area start the tag is stripped from the line as it stands (not trimmed).
pub open spec fn raw_name(l: Seq<char>) -> Seq<char> {
    match kind_of(l) {
        LineKind::AreaBegin => trim(strip_prefix_all(l, area_begin_tag())),
        LineKind::Mark => trim(strip_prefix_all(trim(l), mark_tag())),
        _ => Seq::empty(),
    }
}

/// A name already in snake_case: lowercase ASCII letters and digits, in
/// non-empty groups joined by single `_` (the empty name included).
pub open spec fn is_snake(s: Seq<char>) -> bool {
    &&& forall|i: int|
        0 <= i < s.len() ==> ('a' <= #[trigger] s[i] <= 'z' || '0' <= s[i] <= '9' || s[i] == '_')
    &&& s.len() > 0 ==> s[0] != '_' && s.last() != '_'
    &&& forall|i: int| 0 <= i < s.len() - 1 ==> !(#[trigger] s[i] == '_' && s[i + 1] == '_')
}

/// The snake_case form of a name, as `just_fmt` computes it.
pub uninterp spec fn snake_case_of(s: Seq<char>) -> Seq<char>;

/// A line of the template text, classified and named.
pub open spec fn scan_line(l: Seq<char>) -> LineV {
    let k = kind_of(l);
    (
        l,
        k,
        if k == LineKind::AreaBegin || k == LineKind::Mark {
            snake_case_of(raw_name(l))
        } else {
            Seq::empty()
        },
    )
}

/// The lines of a template text, classified and named.
pub open spec fn scanned(s: Seq<char>) -> Seq<LineV> {
    split_lines(s).map_values(|l: Seq<char>| scan_line(l))
}

/// A line of the template text, classified, with its name as written.
pub open spec fn scan_line_as_written(l: Seq<char>) -> LineV {
    let k = kind_of(l);
    (
        l,
        k,
        if k == LineKind::AreaBegin || k == LineKind::Mark {
            raw_name(l)
        } else {
            Seq::empty()
        },
    )
}

/// The lines of a template text, classified, with their names as written.
pub open spec fn scanned_as_written(s: Seq<char>) -> Seq<LineV> {
    split_lines(s).map_values(|l: Seq<char>| scan_line_as_written(l))
}

/// Every area start and mark of `s` carries a name already in snake_case.
pub open spec fn snake_named(s: Seq<char>) -> bool {
    forall|i: int|
        0 <= i < split_lines(s).len() ==> is_snake(raw_name(#[trigger] split_lines(s)[i]))
}

/// The state of the scan for implementation areas.
pub struct AreaScan {
    /// Name of the open area (empty: none is open).
    pub name: Seq<char>,
    /// Lines of the open area so far.
    pub codes: Seq<Seq<char>>,
    /// Lines outside areas, after an empty first line.
    pub content: Seq<LineV>,
    /// Closed areas as (name, code), in order; a later one hides an earlier
    /// one of the same name.
    pub areas: Seq<(Seq<char>, Seq<char>)>,
}

pub open spec fn scan_start() -> AreaScan {
    AreaScan {
        name: Seq::empty(),
        codes: Seq::empty(),
        content: seq![(Seq::<char>::empty(), LineKind::Text, Seq::<char>::empty())],
        areas: Seq::empty(),
    }
}

/// One line of the area scan; `None` when an area ends while none is open,
/// or starts while one is open.
pub open spec fn area_step(st: Option<AreaScan>, l: LineV) -> Option<AreaScan> {
    match st {
        None => None,
        Some(st) => match l.1 {
            LineKind::AreaEnd => if st.name.len() == 0 {
                None
            } else {
                Some(
                    AreaScan {
                        name: Seq::empty(),
                        codes: Seq::empty(),
                        content: st.content,
                        areas: st.areas.push((st.name, join_lines(st.codes))),
                    },
                )
            },
            LineKind::AreaBegin => if st.name.len() > 0 {
                None
            } else {
                Some(AreaScan { name: l.2, codes: st.codes, content: st.content, areas: st.areas })
            },
            _ => if st.name.len() > 0 {
                Some(
                    AreaScan {
                        name: st.name,
                        codes: st.codes.push(l.0),
                        content: st.content,
                        areas: st.areas,
                    },
                )
            } else {
                Some(
                    AreaScan {
                        name: st.name,
                        codes: st.codes,
                        content: st.content.push(l),
                        areas: st.areas,
                    },
                )
            },
        },
    }
}

/// The area scan over all lines.
pub open spec fn read_areas(ls: Seq<LineV>) -> Option<AreaScan>
    decreases ls.len(),
{
    if ls.len() == 0 {
        Some(scan_start())
    } else {
        area_step(read_areas(ls.drop_last()), ls.last())
    }
}

/// Once the area scan fails, it stays failed.
pub proof fn lemma_read_areas_fails_on(ls: Seq<LineV>, i: int)
    requires
        0 <= i <= ls.len(),
        read_areas(ls.take(i)) is None,
    ensures
        read_areas(ls) is None,
    decreases ls.len() - i,
{
    if i < ls.len() {
        assert(ls.take(i + 1).drop_last() =~= ls.take(i));
        lemma_read_areas_fails_on(ls, i + 1);
    } else {
        assert(ls.take(i) =~= ls);
    }
}

pub fn area_begin_chars() -> (r: Vec<char>)
    ensures
        r@ == area_begin_tag(),
{
    let r = vec!['@', '@', '@', ' ', '>', '>', '>', ' '];
    assert(r@ =~= area_begin_tag());
    r
}

pub fn area_end_chars() -> (r: Vec<char>)
    ensures
        r@ == area_end_tag(),
{
    let r = vec!['@', '@', '@', ' ', '<', '<', '<'];
    assert(r@ =~= area_end_tag());
    r
}

pub fn mark_chars() -> (r: Vec<char>)
    ensures
        r@ == mark_tag(),
{
    let r = vec!['>', '>', '>', '>', '>', '>', '>', '>', '>', '>'];
    assert(r@ =~= mark_tag());
    r
}

pub fn display_begin_chars() -> (r: Vec<char>)
    ensures
        r@ == display_begin_tag(),
{
    let r = vec!['?', '?', '?', ' ', '>', '>', '>', ' '];
    assert(r@ =~= display_begin_tag());
    r
}

pub fn display_end_chars() -> (r: Vec<char>)
    ensures
        r@ == display_end_tag(),
{
    let r = vec!['?', '?', '?', ' ', '<', '<', '<'];
    assert(r@ =~= display_end_tag());
    r
}

/// The placeholder `<<<key>>>`.
pub fn placeholder_chars(key: &Vec<char>) -> (r: Vec<char>)
    ensures
        r@ == placeholder(key@),
{
    let mut r = vec!['<', '<', '<'];
    append_chars(&mut r, key);
    r.push('>');
    r.push('>');
    r.push('>');
    assert(r@ =~= placeholder(key@));
    r
}

/// Whether `s` starts with `p`.
pub fn has_prefix(s: &Vec<char>, p: &Vec<char>) -> (b: bool)
    ensures
        b == starts_with(s@, p@),
{
    assert(s@.skip(0) =~= s@);
    starts_with_at(s, 0, p)
}

/// The kind of a line.
pub fn line_kind(l: &Vec<char>) -> (k: LineKind)
    ensures
        k == kind_of(l@),
{
    let t = trim_chars(l);
    if has_prefix(&t, &area_end_chars()) {
        LineKind::AreaEnd
    } else if has_prefix(&t, &area_begin_chars()) {
        LineKind::AreaBegin
    } else if has_prefix(&t, &mark_chars()) {
        LineKind::Mark
    } else {
        LineKind::Text
    }
}

/// `just_fmt::snake_case!(s)`, which expands to
/// `CaseFormatter::from(s).to_snake_case()` (split into words, lower-cased,
/// joined with `_`). Its result is named `snake_case_of`: the contract
/// claims that the result is a function of the characters of `s`; that it is
/// in snake_case (`str_split` keeps only ASCII letters and digits, makes word
/// breaks of the separators `_ , . -` and spaces and of each change from a
/// lowercase to an uppercase letter, and lowercases the words, which
/// `SnakeCase::build` joins with `_`); and that a name already in snake_case
/// comes back unchanged (its letters and digits are kept, each `_` is a word
/// break, and it has no case boundary). How other names are split is left to
/// the name.
#[verifier::external_body]
fn snake_case(s: &str) -> (r: String)
    ensures
        r@ == snake_case_of(s@),
        is_snake(r@),
        is_snake(s@) ==> r@ == s@,
{
    just_fmt::CaseFormatter::from(s).to_snake_case()
}

/// A line of the template text, classified and, where it carries one, with
/// its name in snake_case.
pub fn scan_one(l: &Vec<char>) -> (r: TemplateLine)
    ensures
        line_view(r) == scan_line(l@),
        is_snake(r.name@),
        is_snake(raw_name(l@)) ==> line_view(r) == scan_line_as_written(l@),
{
    let kind = line_kind(l);
    let name = match kind {
        LineKind::AreaBegin => {
            let raw = trim_chars(&strip_prefix_all_chars(l, &area_begin_chars()));
            chars_of(snake_case(string_of(&raw).as_str()).as_str())
        },
        LineKind::Mark => {
            let raw = trim_chars(&strip_prefix_all_chars(&trim_chars(l), &mark_chars()));
            chars_of(snake_case(string_of(&raw).as_str()).as_str())
        },
        _ => Vec::new(),
    };
    let r = TemplateLine { text: copy_chars(l), kind, name };
    assert(line_view(r).2 =~= scan_line(l@).2);
    assert(is_snake(raw_name(l@)) ==> line_view(r).2 =~= scan_line_as_written(l@).2);
    r
}

/// The lines of the template text, classified and named.
pub fn scan_lines(text: &Vec<char>) -> (r: Vec<TemplateLine>)
    ensures
        lines_of(r@) == scanned(text@),
        forall|i: int| 0 <= i < r@.len() ==> is_snake(#[trigger] r@[i].name@),
        snake_named(text@) ==> lines_of(r@) == scanned_as_written(text@),
{
    let ls = split_lines_chars(text);
    let ghost target = scanned(text@);
    let ghost written = scanned_as_written(text@);
    let mut out: Vec<TemplateLine> = Vec::new();
    let mut i: usize = 0;
    while i < ls.len()
        invariant
            i <= ls.len(),
            lines_view(ls@) == split_lines(text@),
            target == scanned(text@),
            written == scanned_as_written(text@),
            lines_of(out@) == target.take(i as int),
            forall|j: int| 0 <= j < out@.len() ==> is_snake(#[trigger] out@[j].name@),
            snake_named(text@) ==> lines_of(out@) == written.take(i as int),
        decreases ls.len() - i,
    {
        let ghost before = lines_of(out@);
        let line = scan_one(&ls[i]);
        out.push(line);
        assert(lines_view(ls@)[i as int] == ls@[i as int]@);
        assert(lines_of(out@) =~= before.push(target[i as int]));
        assert(target.take(i + 1) =~= target.take(i as int).push(target[i as int]));
        proof {
            if snake_named(text@) {
                assert(is_snake(raw_name(split_lines(text@)[i as int])));
                assert(lines_of(out@) =~= before.push(written[i as int]));
                assert(written.take(i + 1) =~= written.take(i as int).push(written[i as int]));
            }
        }
        i = i + 1;
    }
    assert(target.take(ls.len() as int) =~= target);
    assert(written.take(ls.len() as int) =~= written);
    out
}

/// A copy of a template line.
pub fn copy_line(l: &TemplateLine) -> (r: TemplateLine)
    ensures
        line_view(r) == line_view(*l),
{
    TemplateLine { text: copy_chars(&l.text), kind: l.kind, name: copy_chars(&l.name) }
}

/// Takes the implementation areas out of the lines: returns the lines outside
/// areas (after an empty first line) and the areas as (name, code), or `None`
/// when an area ends while none is open or starts while one is open.
pub fn read_impl_areas(lines: &Vec<TemplateLine>) -> (r: Option<
    (Vec<TemplateLine>, Vec<(Vec<char>, Vec<char>)>),
>)
    ensures
        match read_areas(lines_of(lines@)) {
            None => r is None,
            Some(st) => r matches Some((c, a)) && lines_of(c@) == st.content && areas_view(a@)
                == st.areas,
        },
{
    let ghost ls = lines_of(lines@);
    let mut name: Vec<char> = Vec::new();
    let mut codes: Vec<Vec<char>> = Vec::new();
    let mut content: Vec<TemplateLine> = Vec::new();
    content.push(TemplateLine { text: Vec::new(), kind: LineKind::Text, name: Vec::new() });
    let mut areas: Vec<(Vec<char>, Vec<char>)> = Vec::new();
    assert(lines_of(content@) =~= scan_start().content);
    assert(lines_view(codes@) =~= Seq::<Seq<char>>::empty());
    assert(areas_view(areas@) =~= Seq::<(Seq<char>, Seq<char>)>::empty());
    assert(ls.take(0) =~= Seq::<LineV>::empty());
    let mut i: usize = 0;
    while i < lines.len()
        invariant
            i <= lines.len(),
            ls == lines_of(lines@),
            read_areas(ls.take(i as int)) == Some(
                AreaScan {
                    name: name@,
                    codes: lines_view(codes@),
                    content: lines_of(content@),
                    areas: areas_view(areas@),
                },
            ),
        decreases lines.len() - i,
    {
        let l = &lines[i];
        assert(ls.take(i + 1).drop_last() =~= ls.take(i as int));
        assert(ls[i as int] == line_view(*l));
        match l.kind {
            LineKind::AreaEnd => {
                if name.len() == 0 {
                    proof {
                        lemma_read_areas_fails_on(ls, i + 1);
                    }
                    return None;
                }
                let code = join_lines_chars(&codes);
                let mut done: Vec<char> = Vec::new();
                std::mem::swap(&mut done, &mut name);
                let ghost before = areas_view(areas@);
                areas.push((done, code));
                assert(areas_view(areas@) =~= before.push((done@, code@)));
                codes = Vec::new();
                assert(lines_view(codes@) =~= Seq::<Seq<char>>::empty());
            },
            LineKind::AreaBegin => {
                if name.len() > 0 {
                    proof {
                        lemma_read_areas_fails_on(ls, i + 1);
                    }
                    return None;
                }
                name = copy_chars(&l.name);
            },
            _ => {
                if name.len() > 0 {
                    let ghost before = lines_view(codes@);
                    codes.push(copy_chars(&l.text));
                    assert(lines_view(codes@) =~= before.push(l.text@));
                } else {
                    let ghost before = lines_of(content@);
                    content.push(copy_line(l));
                    assert(lines_of(content@) =~= before.push(line_view(*l)));
                }
            },
        }
        i = i + 1;
    }
    assert(ls.take(lines.len() as int) =~= ls);
    Some((content, areas))
}

/// The name that a display block start carries.
pub open spec fn display_name(l: Seq<char>) -> Seq<char> {
    trim(strip_prefix_all(trim(l), display_begin_tag()))
}

/// The display-block pass over lines: the number of open blocks counted from
/// the outermost hidden one (0 when every open block is shown), and the
/// lines kept. Marker lines are never kept; a stray end marker is dropped.
pub open spec fn display_fold(on: Set<Seq<char>>, ls: Seq<Seq<char>>) -> (nat, Seq<Seq<char>>)
    decreases ls.len(),
{
    if ls.len() == 0 {
        (0, Seq::empty())
    } else {
        let prev = display_fold(on, ls.drop_last());
        let h = prev.0;
        let l = ls.last();
        let t = trim(l);
        if starts_with(t, display_begin_tag()) {
            (
                if h > 0 {
                    h + 1
                } else if on.contains(display_name(l)) {
                    0
                } else {
                    1
                },
                prev.1,
            )
        } else if starts_with(t, display_end_tag()) {
            (
                if h > 0 {
                    (h - 1) as nat
                } else {
                    0
                },
                prev.1,
            )
        } else if h == 0 {
            (h, prev.1.push(l))
        } else {
            (h, prev.1)
        }
    }
}

/// The text with its display blocks resolved: a block named `n` is kept,
/// without its marker lines, when `on` holds `n` and every enclosing block is
/// kept.
pub open spec fn display(on: Set<Seq<char>>, s: Seq<char>) -> Seq<char> {
    join_lines(display_fold(on, split_lines(s)).1)
}

/// Replaces `<<<k>>>` by `v` for each parameter `(k, v)`, in order.
pub open spec fn replace_params(s: Seq<char>, ps: Pairs) -> Seq<char>
    decreases ps.len(),
{
    if ps.len() == 0 {
        s
    } else {
        replace_all(replace_params(s, ps.drop_last()), placeholder(ps.last().0), ps.last().1)
    }
}

/// One expansion of an area's code for the parameter set `item`: display
/// blocks are shown by a key of the simple parameters or of `item`, then
/// `item`'s placeholders are replaced.
pub open spec fn arm_text(params: Pairs, code: Seq<char>, item: Pairs) -> Seq<char> {
    replace_params(display(key_set(params).union(key_set(item)), code), item)
}

/// The expansions of an area's code, one per parameter set.
pub open spec fn area_arms(params: Pairs, code: Seq<char>, items: Seq<Pairs>) -> Seq<Seq<char>> {
    Seq::new(items.len(), |i: int| arm_text(params, code, items[i]))
}

/// What a content line becomes: a mark whose name has both an area and a
/// non-empty implementation block becomes a line break and the expansions
/// joined with line breaks; any other mark becomes nothing; any other line
/// becomes a line break and the line.
pub open spec fn impl_piece(
    params: Pairs,
    impls: Seq<(Seq<char>, Seq<Pairs>)>,
    areas: Seq<(Seq<char>, Seq<char>)>,
    l: LineV,
) -> Seq<char> {
    if l.1 == LineKind::Mark {
        match lookup_index(areas, l.2) {
            None => Seq::empty(),
            Some(ai) => match lookup_index(impls, l.2) {
                None => Seq::empty(),
                Some(ii) => if impls[ii].1.len() == 0 {
                    Seq::empty()
                } else {
                    seq!['\n'] + join_lines(area_arms(params, areas[ai].1, impls[ii].1))
                },
            },
        }
    } else {
        seq!['\n'] + l.0
    }
}

/// The content lines with the implementation blocks put in place.
pub open spec fn impls_text(
    params: Pairs,
    impls: Seq<(Seq<char>, Seq<Pairs>)>,
    areas: Seq<(Seq<char>, Seq<char>)>,
    ls: Seq<LineV>,
) -> Seq<char>
    decreases ls.len(),
{
    if ls.len() == 0 {
        Seq::empty()
    } else {
        impls_text(params, impls, areas, ls.drop_last()) + impl_piece(
            params,
            impls,
            areas,
            ls.last(),
        )
    }
}

/// The expansion of scanned lines for the given parameters: `None` when the
/// implementation areas do not pair up.
pub open spec fn expand_lines_spec(
    params: Pairs,
    impls: Seq<(Seq<char>, Seq<Pairs>)>,
    ls: Seq<LineV>,
) -> Option<Seq<char>> {
    match read_areas(ls) {
        None => None,
        Some(st) => Some(
            trim(
                replace_params(
                    display(key_set(params), impls_text(params, impls, st.areas, st.content)),
                    params,
                ),
            ),
        ),
    }
}

/// The expansion of a template.
pub open spec fn expansion(t: Template) -> Option<Seq<char>> {
    expand_lines_spec(t.params(), t.impls(), scanned(t.text()))
}

pub proof fn lemma_key_set_push(ps: Pairs, e: (Seq<char>, Seq<char>))
    ensures
        key_set(ps.push(e)) == key_set(ps).insert(e.0),
{
    assert forall|q: Seq<char>| #[trigger] has_key(ps.push(e), q) == (has_key(ps, q) || q == e.0) by {
        assert(ps.push(e).drop_last() =~= ps);
    }
    assert(key_set(ps.push(e)) =~= key_set(ps).insert(e.0));
}

/// Resolves the display blocks of `content`: a block named `n` is kept,
/// without its markers, when `params` has the key `n` and every enclosing
/// block is kept.
pub fn apply_display_blocks(params: &Params, content: &Vec<char>) -> (r: Vec<char>)
    ensures
        r@ == display(key_set(params@), content@),
{
    let ghost on = key_set(params@);
    let ls = split_lines_chars(content);
    let ghost lv = lines_view(ls@);
    let db = display_begin_chars();
    let de = display_end_chars();
    let mut hidden: usize = 0;
    let mut out: Vec<Vec<char>> = Vec::new();
    let mut i: usize = 0;
    assert(lines_view(out@) =~= Seq::<Seq<char>>::empty());
    assert(lv.take(0) =~= Seq::<Seq<char>>::empty());
    while i < ls.len()
        invariant
            i <= ls.len(),
            lv == lines_view(ls@),
            lv == split_lines(content@),
            on == key_set(params@),
            db@ == display_begin_tag(),
            de@ == display_end_tag(),
            hidden <= i,
            display_fold(on, lv.take(i as int)) == (hidden as nat, lines_view(out@)),
        decreases ls.len() - i,
    {
        assert(lv.take(i + 1).drop_last() =~= lv.take(i as int));
        assert(lv[i as int] == ls@[i as int]@);
        let t = trim_chars(&ls[i]);
        if has_prefix(&t, &db) {
            let name = trim_chars(&strip_prefix_all_chars(&t, &db));
            if hidden > 0 {
                hidden = hidden + 1;
            } else if params.contains_key_chars(&name) {
                hidden = 0;
            } else {
                hidden = 1;
            }
        } else if has_prefix(&t, &de) {
            if hidden > 0 {
                hidden = hidden - 1;
            }
        } else if hidden == 0 {
            let ghost before = lines_view(out@);
            out.push(copy_chars(&ls[i]));
            assert(lines_view(out@) =~= before.push(lv[i as int]));
        }
        i = i + 1;
    }
    assert(lv.take(ls.len() as int) =~= lv);
    join_lines_chars(&out)
}

/// Replaces `<<<k>>>` by `v` for each parameter `(k, v)`, in order.
pub fn apply_param(params: &Params, content: &Vec<char>) -> (r: Vec<char>)
    ensures
        r@ == replace_params(content@, params@),
{
    let mut out = copy_chars(content);
    let n = params.len();
    let mut j: usize = 0;
    assert(params@.take(0) =~= Seq::<(Seq<char>, Seq<char>)>::empty());
    while j < n
        invariant
            j <= n,
            n == params@.len(),
            out@ == replace_params(content@, params@.take(j as int)),
        decreases n - j,
    {
        let pat = placeholder_chars(params.key_at(j));
        out = replace_chars(&out, &pat, params.value_at(j));
        assert(params@.take(j + 1).drop_last() =~= params@.take(j as int));
        j = j + 1;
    }
    assert(params@.take(n as int) =~= params@);
    out
}

/// One expansion of an area's code for the parameter set `item`.
pub fn apply_arm(params: &Params, code: &Vec<char>, item: &Params) -> (r: Vec<char>)
    ensures
        r@ == arm_text(params@, code@, item@),
{
    let mut shown = params.copy();
    let n = item.len();
    let mut j: usize = 0;
    assert(item@.take(0) =~= Seq::<(Seq<char>, Seq<char>)>::empty());
    assert(key_set(item@.take(0)) =~= Set::<Seq<char>>::empty());
    assert(key_set(params@).union(Set::<Seq<char>>::empty()) =~= key_set(params@));
    while j < n
        invariant
            j <= n,
            n == item@.len(),
            keys_unique(shown@),
            key_set(shown@) == key_set(params@).union(key_set(item@.take(j as int))),
        decreases n - j,
    {
        proof {
            lemma_pairs_insert(shown@, item@[j as int].0, item@[j as int].1);
            assert(item@.take(j + 1) =~= item@.take(j as int).push(item@[j as int]));
            lemma_key_set_push(item@.take(j as int), item@[j as int]);
        }
        shown.insert_chars(copy_chars(item.key_at(j)), copy_chars(item.value_at(j)));
        assert(key_set(shown@) =~= key_set(params@).union(key_set(item@.take(j + 1))));
        j = j + 1;
    }
    assert(item@.take(n as int) =~= item@);
    let d = apply_display_blocks(&shown, code);
    apply_param(item, &d)
}

/// The expansions of an area's code, one per parameter set, joined with line breaks.
pub fn arms_text(params: &Params, code: &Vec<char>, items: &Vec<Params>) -> (r: Vec<char>)
    ensures
        r@ == join_lines(area_arms(params@, code@, arms_view(items@))),
{
    let ghost target = area_arms(params@, code@, arms_view(items@));
    let mut texts: Vec<Vec<char>> = Vec::new();
    let mut j: usize = 0;
    while j < items.len()
        invariant
            j <= items.len(),
            target == area_arms(params@, code@, arms_view(items@)),
            lines_view(texts@) == target.take(j as int),
        decreases items.len() - j,
    {
        let ghost before = lines_view(texts@);
        let t = apply_arm(params, code, &items[j]);
        assert(arms_view(items@)[j as int] == items@[j as int]@);
        assert(t@ == target[j as int]);
        texts.push(t);
        assert(lines_view(texts@) =~= before.push(t@));
        assert(target.take(j + 1) =~= target.take(j as int).push(target[j as int]));
        j = j + 1;
    }
    assert(target.take(items.len() as int) =~= target);
    join_lines_chars(&texts)
}

/// Where the area named `name` stands, searching from the back.
pub fn find_area(areas: &Vec<(Vec<char>, Vec<char>)>, name: &Vec<char>) -> (r: Option<usize>)
    ensures
        match r {
            Some(i) => lookup_index(areas_view(areas@), name@) == Some(i as int),
            None => lookup_index(areas_view(areas@), name@) is None,
        },
{
    let ghost av = areas_view(areas@);
    let mut i = areas.len();
    assert(av.take(i as int) =~= av);
    while i > 0
        invariant
            i <= areas.len(),
            av == areas_view(areas@),
            lookup_index(av, name@) == lookup_index(av.take(i as int), name@),
        decreases i,
    {
        assert(av[i - 1].0 == areas@[i - 1].0@);
        if crate::text::chars_eq(&areas[i - 1].0, name) {
            return Some(i - 1);
        }
        assert(av.take(i as int).drop_last() =~= av.take(i - 1));
        i = i - 1;
    }
    None
}

/// The content lines with the implementation blocks put in place of their marks.
pub fn apply_impls(
    template: &Template,
    content: &Vec<TemplateLine>,
    areas: &Vec<(Vec<char>, Vec<char>)>,
) -> (r: Vec<char>)
    ensures
        r@ == impls_text(template.params(), template.impls(), areas_view(areas@), lines_of(content@)),
{
    let ghost ls = lines_of(content@);
    let ghost av = areas_view(areas@);
    let mut out: Vec<char> = Vec::new();
    let mut i: usize = 0;
    assert(ls.take(0) =~= Seq::<LineV>::empty());
    while i < content.len()
        invariant
            i <= content.len(),
            ls == lines_of(content@),
            av == areas_view(areas@),
            out@ == impls_text(template.params(), template.impls(), av, ls.take(i as int)),
        decreases content.len() - i,
    {
        let l = &content[i];
        assert(ls.take(i + 1).drop_last() =~= ls.take(i as int));
        assert(ls[i as int] == line_view(*l));
        let ghost before = out@;
        if l.kind == LineKind::Mark {
            match find_area(areas, &l.name) {
                None => {
                    assert(out@ =~= before + Seq::<char>::empty());
                },
                Some(ai) => {
                    proof {
                        lemma_lookup_index(av, l.name@);
                    }
                    match template.impl_index(&l.name) {
                        None => {
                            assert(out@ =~= before + Seq::<char>::empty());
                        },
                        Some(ii) => {
                            proof {
                                lemma_lookup_index(template.impls(), l.name@);
                            }
                            let items = template.arms_at(ii);
                            if items.len() > 0 {
                                out.push('\n');
                                let joined = arms_text(template.param_set(), &areas[ai].1, items);
                                append_chars(&mut out, &joined);
                                assert(out@ =~= before + (seq!['\n'] + joined@));
                            } else {
                                assert(out@ =~= before + Seq::<char>::empty());
                            }
                        },
                    }
                },
            }
        } else {
            out.push('\n');
            append_chars(&mut out, &l.text);
            assert(out@ =~= before + (seq!['\n'] + l.text@));
        }
        i = i + 1;
    }
    assert(ls.take(content.len() as int) =~= ls);
    out
}

/// The expansion of scanned lines with the parameters of `template`; `None`
/// when the implementation areas do not pair up.
pub fn expand_lines(template: &Template, lines: &Vec<TemplateLine>) -> (r: Option<Vec<char>>)
    ensures
        match expand_lines_spec(template.params(), template.impls(), lines_of(lines@)) {
            None => r is None,
            Some(s) => r matches Some(v) && v@ == s,
        },
{
    match read_impl_areas(lines) {
        None => None,
        Some((content, areas)) => {
            let applied = apply_impls(template, &content, &areas);
            let shown = apply_display_blocks(template.param_set(), &applied);
            let replaced = apply_param(template.param_set(), &shown);
            Some(trim_chars(&replaced))
        },
    }
}

impl Template {
    /// Expands the template: `None` when an implementation area ends while
    /// none is open, or starts while one is open.
    pub fn expand(self) -> (r: Option<String>)
        ensures
            match expansion(self) {
                None => r is None,
                Some(s) => r matches Some(v) && v@ == s,
            },
            snake_named(self.text()) ==> expansion(self) == expand_lines_spec(
                self.params(),
                self.impls(),
                scanned_as_written(self.text()),
            ),
    {
        let lines = scan_lines(self.text_chars());
        match expand_lines(&self, &lines) {
            None => None,
            Some(v) => Some(string_of(&v)),
        }
    }

    /// The expansion, or the empty string when the template does not expand.
    pub fn to_string(&self) -> (r: String)
        ensures
            r@ == match expansion(*self) {
                Some(s) => s,
                None => Seq::<char>::empty(),
            },
            snake_named(self.text()) ==> expansion(*self) == expand_lines_spec(
                self.params(),
                self.impls(),
                scanned_as_written(self.text()),
            ),
    {
        let lines = scan_lines(self.text_chars());
        match expand_lines(self, &lines) {
            None => String::new(),
            Some(v) => string_of(&v),
        }
    }
}

} // verus!
