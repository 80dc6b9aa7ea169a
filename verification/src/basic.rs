//! The basic template dialect: placeholders and implementation blocks, with
//! no display blocks. A mark whose area exists always leaves a line break,
//! also when its block has no parameter set.
use vstd::prelude::*;

use crate::expand::{
    apply_param, areas_view, find_area, lines_of, read_areas, read_impl_areas, replace_params,
    scan_lines, scanned, scanned_as_written, snake_named, LineKind, LineV, TemplateLine,
};
use crate::params::{keys_unique, pairs_insert, Pairs, Params};
use crate::template::{arms_view, lemma_lookup_index, lookup_index};
use crate::text::{
    append_chars, join_lines, join_lines_chars, lines_view, string_of, trim, trim_chars,
};

verus! {

/// The copies of an area's code, one per parameter set, each with the set's
/// placeholders replaced.
pub open spec fn basic_arms(code: Seq<char>, items: Seq<Pairs>) -> Seq<Seq<char>> {
    Seq::new(items.len(), |i: int| replace_params(code, items[i]))
}

/// The parameter sets of the block `name` (none when there is no such block).
pub open spec fn block_items(impls: Seq<(Seq<char>, Seq<Pairs>)>, name: Seq<char>) -> Seq<Pairs> {
    match lookup_index(impls, name) {
        Some(i) => impls[i].1,
        None => Seq::empty(),
    }
}

/// What a content line becomes: a mark whose name has an area becomes a line
/// break and the copies joined with line breaks; any other mark becomes
/// nothing; any other line becomes a line break and the line.
pub open spec fn basic_piece(
    impls: Seq<(Seq<char>, Seq<Pairs>)>,
    areas: Seq<(Seq<char>, Seq<char>)>,
    l: LineV,
) -> Seq<char> {
    if l.1 == LineKind::Mark {
        match lookup_index(areas, l.2) {
            None => Seq::empty(),
            Some(ai) => seq!['\n'] + join_lines(basic_arms(areas[ai].1, block_items(impls, l.2))),
        }
    } else {
        seq!['\n'] + l.0
    }
}

/// The content lines with the implementation blocks put in place.
pub open spec fn basic_impls_text(
    impls: Seq<(Seq<char>, Seq<Pairs>)>,
    areas: Seq<(Seq<char>, Seq<char>)>,
    ls: Seq<LineV>,
) -> Seq<char>
    decreases ls.len(),
{
    if ls.len() == 0 {
        Seq::empty()
    } else {
        basic_impls_text(impls, areas, ls.drop_last()) + basic_piece(impls, areas, ls.last())
    }
}

/// The basic expansion of scanned lines: `None` when the implementation
/// areas do not pair up.
pub open spec fn basic_expand_spec(
    params: Pairs,
    impls: Seq<(Seq<char>, Seq<Pairs>)>,
    ls: Seq<LineV>,
) -> Option<Seq<char>> {
    match read_areas(ls) {
        None => None,
        Some(st) => Some(trim(replace_params(basic_impls_text(impls, st.areas, st.content), params))),
    }
}

/// The copies of an area's code, one per parameter set, joined with line breaks.
pub fn basic_arms_text(code: &Vec<char>, items: &Vec<Params>) -> (r: Vec<char>)
    ensures
        r@ == join_lines(basic_arms(code@, arms_view(items@))),
{
    let ghost target = basic_arms(code@, arms_view(items@));
    let mut texts: Vec<Vec<char>> = Vec::new();
    let mut j: usize = 0;
    while j < items.len()
        invariant
            j <= items.len(),
            target == basic_arms(code@, arms_view(items@)),
            lines_view(texts@) == target.take(j as int),
        decreases items.len() - j,
    {
        let ghost before = lines_view(texts@);
        let t = apply_param(&items[j], code);
        assert(arms_view(items@)[j as int] == items@[j as int]@);
        texts.push(t);
        assert(lines_view(texts@) =~= before.push(t@));
        assert(target.take(j + 1) =~= target.take(j as int).push(target[j as int]));
        j = j + 1;
    }
    assert(target.take(items.len() as int) =~= target);
    join_lines_chars(&texts)
}

/// A template of the basic dialect.
pub struct Template {
    inner: crate::template::Template,
}

impl Template {
    /// The template text.
    pub closed spec fn text(&self) -> Seq<char> {
        self.inner.text()
    }

    /// The simple parameters.
    pub closed spec fn params(&self) -> Pairs {
        self.inner.params()
    }

    /// The implementation blocks, each with its parameter sets.
    pub closed spec fn impls(&self) -> Seq<(Seq<char>, Seq<Pairs>)> {
        self.inner.impls()
    }

    /// Adds the simple parameter `name` with value `value`; an existing
    /// parameter of that name takes the new value.
    pub fn insert_param(&mut self, name: String, value: String)
        ensures
            final(self).params() == pairs_insert(old(self).params(), name@, value@),
            keys_unique(final(self).params()),
            final(self).text() == old(self).text(),
            final(self).impls() == old(self).impls(),
    {
        self.inner.insert_param(name, value);
    }

    /// The parameter sets of the implementation block `impl_name`, created
    /// empty if the template has no block of that name yet.
    pub fn add_impl(&mut self, impl_name: String) -> (arms: &mut Vec<Params>)
        ensures
            final(self).text() == old(self).text(),
            final(self).params() == old(self).params(),
            match lookup_index(old(self).impls(), impl_name@) {
                Some(i) => {
                    &&& arms_view(arms@) == old(self).impls()[i].1
                    &&& final(self).impls() == old(self).impls().update(
                        i,
                        (impl_name@, arms_view(final(arms)@)),
                    )
                },
                None => {
                    &&& arms@ == Seq::<Params>::empty()
                    &&& final(self).impls() == old(self).impls().push(
                        (impl_name@, arms_view(final(arms)@)),
                    )
                },
            },
    {
        self.inner.add_impl(impl_name)
    }

    /// The content lines with the implementation blocks put in place.
    fn apply_impls(
        &self,
        content: &Vec<TemplateLine>,
        areas: &Vec<(Vec<char>, Vec<char>)>,
    ) -> (r: Vec<char>)
        ensures
            r@ == basic_impls_text(self.impls(), areas_view(areas@), lines_of(content@)),
    {
        let ghost ls = lines_of(content@);
        let ghost av = areas_view(areas@);
        let mut out: Vec<char> = Vec::new();
        let mut i: usize = 0;
        assert(ls.take(0) =~= Seq::<LineV>::empty());
        while i < content.len()
            invariant
                i <= content.len(),
                ls == lines_of(content@),
                av == areas_view(areas@),
                out@ == basic_impls_text(self.impls(), av, ls.take(i as int)),
            decreases content.len() - i,
        {
            let l = &content[i];
            assert(ls.take(i + 1).drop_last() =~= ls.take(i as int));
            assert(ls[i as int] == crate::expand::line_view(*l));
            let ghost before = out@;
            if l.kind == LineKind::Mark {
                match find_area(areas, &l.name) {
                    None => {
                        assert(out@ =~= before + Seq::<char>::empty());
                    },
                    Some(ai) => {
                        proof {
                            lemma_lookup_index(av, l.name@);
                            lemma_lookup_index(self.impls(), l.name@);
                        }
                        let joined = match self.inner.impl_index(&l.name) {
                            Some(ii) => basic_arms_text(&areas[ai].1, self.inner.arms_at(ii)),
                            None => {
                                assert(basic_arms(areas@[ai as int].1@, Seq::<Pairs>::empty())
                                    =~= Seq::<Seq<char>>::empty());
                                Vec::new()
                            },
                        };
                        out.push('\n');
                        append_chars(&mut out, &joined);
                        assert(out@ =~= before + (seq!['\n'] + joined@));
                    },
                }
            } else {
                out.push('\n');
                append_chars(&mut out, &l.text);
                assert(out@ =~= before + (seq!['\n'] + l.text@));
            }
            i = i + 1;
        }
        assert(ls.take(content.len() as int) =~= ls);
        out
    }

    /// The basic expansion of scanned lines with this template's parameters.
    pub fn expand_lines(&self, lines: &Vec<TemplateLine>) -> (r: Option<Vec<char>>)
        ensures
            match basic_expand_spec(self.params(), self.impls(), lines_of(lines@)) {
                None => r is None,
                Some(s) => r matches Some(v) && v@ == s,
            },
    {
        match read_impl_areas(lines) {
            None => None,
            Some((content, areas)) => {
                let applied = self.apply_impls(&content, &areas);
                let replaced = apply_param(self.inner.param_set(), &applied);
                Some(trim_chars(&replaced))
            },
        }
    }

    /// Expands the template: `None` when an implementation area ends while
    /// none is open, or starts while one is open.
    pub fn expand(self) -> (r: Option<String>)
        ensures
            match basic_expand_spec(self.params(), self.impls(), scanned(self.text())) {
                None => r is None,
                Some(s) => r matches Some(v) && v@ == s,
            },
            snake_named(self.text()) ==> basic_expand_spec(
                self.params(),
                self.impls(),
                scanned(self.text()),
            ) == basic_expand_spec(self.params(), self.impls(), scanned_as_written(self.text())),
    {
        let lines = scan_lines(self.inner.text_chars());
        match self.expand_lines(&lines) {
            None => None,
            Some(v) => Some(string_of(&v)),
        }
    }

    /// The expansion, or the empty string when the template does not expand.
    pub fn to_string(&self) -> (r: String)
        ensures
            r@ == match basic_expand_spec(self.params(), self.impls(), scanned(self.text())) {
                Some(s) => s,
                None => Seq::<char>::empty(),
            },
            snake_named(self.text()) ==> basic_expand_spec(
                self.params(),
                self.impls(),
                scanned(self.text()),
            ) == basic_expand_spec(self.params(), self.impls(), scanned_as_written(self.text())),
    {
        let lines = scan_lines(self.inner.text_chars());
        match self.expand_lines(&lines) {
            None => String::new(),
            Some(v) => string_of(&v),
        }
    }
}

impl Clone for Template {
    fn clone(&self) -> (t: Self)
        ensures
            t.text() == self.text(),
            t.params() == self.params(),
            t.impls() == self.impls(),
    {
        Template { inner: self.inner.copy() }
    }
}

impl Default for Template {
    fn default() -> (t: Self)
        ensures
            t.text() == Seq::<char>::empty(),
            t.params() == Seq::<(Seq<char>, Seq<char>)>::empty(),
            t.impls() == Seq::<(Seq<char>, Seq<Pairs>)>::empty(),
    {
        Template { inner: crate::template::Template::from_chars(Vec::new()) }
    }
}

impl From<String> for Template {
    fn from(s: String) -> (t: Template)
        ensures
            t.text() == s@,
            t.params() == Seq::<(Seq<char>, Seq<char>)>::empty(),
            t.impls() == Seq::<(Seq<char>, Seq<Pairs>)>::empty(),
    {
        Template { inner: crate::template::Template::from(s) }
    }
}

impl vstd::std_specs::convert::FromSpecImpl<String> for Template {
    open spec fn obeys_from_spec() -> bool {
        false
    }

    open spec fn from_spec(s: String) -> Template {
        arbitrary()
    }
}

} // verus!
