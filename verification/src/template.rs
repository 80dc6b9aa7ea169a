//! The template: a template text, its simple parameters, and the parameter
//! sets of its implementation blocks.
use vstd::prelude::*;

use crate::params::{keys_unique, pairs_insert, Pairs, Params};
use crate::text::{chars_eq, chars_of, copy_chars};

verus! {

/// Where key `k` stands in `l`, searching from the back.
pub open spec fn lookup_index<V>(l: Seq<(Seq<char>, V)>, k: Seq<char>) -> Option<int>
    decreases l.len(),
{
    if l.len() == 0 {
        None
    } else if l.last().0 == k {
        Some(l.len() - 1)
    } else {
        lookup_index(l.drop_last(), k)
    }
}

pub proof fn lemma_lookup_index<V>(l: Seq<(Seq<char>, V)>, k: Seq<char>)
    ensures
        lookup_index(l, k) matches Some(i) ==> 0 <= i < l.len() && l[i].0 == k,
        lookup_index(l, k) matches Some(i) ==> forall|j: int| i < j < l.len() ==> l[j].0 != k,
        lookup_index(l, k) is None ==> forall|i: int| 0 <= i < l.len() ==> l[i].0 != k,
    decreases l.len(),
{
    if l.len() > 0 && l.last().0 != k {
        lemma_lookup_index(l.drop_last(), k);
        if let Some(i) = lookup_index(l, k) {
            assert forall|j: int| i < j < l.len() implies l[j].0 != k by {
                if j < l.len() - 1 {
                    assert(l[j] == l.drop_last()[j]);
                }
            }
        }
        if lookup_index(l, k) is None {
            assert forall|i: int| 0 <= i < l.len() implies l[i].0 != k by {
                if i < l.len() - 1 {
                    assert(l[i] == l.drop_last()[i]);
                }
            }
        }
    }
}

/// No name occurs twice.
pub open spec fn names_unique<V>(l: Seq<(Seq<char>, V)>) -> bool {
    forall|i: int, j: int| 0 <= i < j < l.len() ==> l[i].0 != l[j].0
}

/// The views of the parameter sets of one implementation block.
pub open spec fn arms_view(arms: Seq<Params>) -> Seq<Pairs> {
    arms.map_values(|p: Params| p@)
}

/// The views of all implementation blocks: names and parameter sets side by side.
pub open spec fn impls_view(names: Seq<Vec<char>>, arms: Seq<Vec<Params>>) -> Seq<
    (Seq<char>, Seq<Pairs>),
> {
    Seq::new(names.len(), |i: int| (names[i]@, arms_view(arms[i]@)))
}

/// A template text with its parameters.
///
/// - simple parameters replace `<<<key>>>` placeholders and switch display
///   blocks (`??? >>> name` ... `??? <<<`) on;
/// - each implementation block (declared by `@@@ >>> name` ... `@@@ <<<`,
///   placed by a `>>>>>>>>>> name` line) is expanded once per parameter set.
pub struct Template {
    template_str: Vec<char>,
    params: Params,
    /// The implementation block names; `impl_arms[i]` holds the parameter
    /// sets of block `impl_names[i]`.
    impl_names: Vec<Vec<char>>,
    impl_arms: Vec<Vec<Params>>,
}

impl Template {
    /// Each block name occurs once, and every block has its parameter sets.
    #[verifier::type_invariant]
    spec fn unique_block_names(self) -> bool {
        &&& self.impl_names@.len() == self.impl_arms@.len()
        &&& forall|i: int, j: int|
            0 <= i < j < self.impl_names@.len() ==> self.impl_names@[i]@ != self.impl_names@[j]@
    }

    /// The template text.
    pub closed spec fn text(&self) -> Seq<char> {
        self.template_str@
    }

    /// The simple parameters.
    pub closed spec fn params(&self) -> Pairs {
        self.params@
    }

    /// The implementation blocks, each with its parameter sets.
    pub closed spec fn impls(&self) -> Seq<(Seq<char>, Seq<Pairs>)> {
        impls_view(self.impl_names@, self.impl_arms@)
    }

    /// A template with text `text` and no parameter.
    pub fn from_chars(text: Vec<char>) -> (t: Template)
        ensures
            t.text() == text@,
            t.params() == Seq::<(Seq<char>, Seq<char>)>::empty(),
            t.impls() == Seq::<(Seq<char>, Seq<Pairs>)>::empty(),
    {
        let t = Template {
            template_str: text,
            params: Params::new(),
            impl_names: Vec::new(),
            impl_arms: Vec::new(),
        };
        assert(t.impls() =~= Seq::<(Seq<char>, Seq<Pairs>)>::empty());
        t
    }

    /// The template text, as characters.
    pub fn text_chars(&self) -> (r: &Vec<char>)
        ensures
            r@ == self.text(),
    {
        &self.template_str
    }

    /// The simple parameters.
    pub fn param_set(&self) -> (r: &Params)
        ensures
            r@ == self.params(),
    {
        &self.params
    }

    /// Where the implementation block named `name` stands.
    pub fn impl_index(&self, name: &Vec<char>) -> (r: Option<usize>)
        ensures
            match r {
                Some(i) => lookup_index(self.impls(), name@) == Some(i as int),
                None => lookup_index(self.impls(), name@) is None,
            },
            names_unique(self.impls()),
    {
        proof {
            use_type_invariant(self);
            assert forall|a: int, b: int| 0 <= a < b < self.impls().len() implies self.impls()[a].0
                != self.impls()[b].0 by {
                assert(self.impls()[a].0 == self.impl_names@[a]@);
                assert(self.impls()[b].0 == self.impl_names@[b]@);
            }
            assert(names_unique(self.impls()));
        }
        let mut i = self.impl_names.len();
        assert(self.impls().take(i as int) =~= self.impls());
        while i > 0
            invariant
                i <= self.impls().len(),
                self.impls().len() == self.impl_names@.len(),
                names_unique(self.impls()),
                lookup_index(self.impls(), name@) == lookup_index(self.impls().take(i as int), name@),
            decreases i,
        {
            assert(self.impls()[i - 1].0 == self.impl_names@[i - 1]@);
            if chars_eq(&self.impl_names[i - 1], name) {
                return Some(i - 1);
            }
            assert(self.impls().take(i as int).drop_last() =~= self.impls().take(i - 1));
            i = i - 1;
        }
        None
    }

    /// The parameter sets of implementation block `i`.
    pub fn arms_at(&self, i: usize) -> (r: &Vec<Params>)
        requires
            i < self.impls().len(),
        ensures
            arms_view(r@) == self.impls()[i as int].1,
    {
        proof {
            use_type_invariant(self);
        }
        &self.impl_arms[i]
    }

    /// Adds the simple parameter `name` with value `value`; an existing
    /// parameter of that name takes the new value.
    pub fn insert_param(&mut self, name: String, value: String)
        ensures
            final(self).params() == pairs_insert(old(self).params(), name@, value@),
            keys_unique(final(self).params()),
            final(self).text() == old(self).text(),
            final(self).impls() == old(self).impls(),
    {
        proof {
            use_type_invariant(&*self);
        }
        let mut p = Params::new();
        std::mem::swap(&mut p, &mut self.params);
        p.insert(name, value);
        self.params = p;
    }

    /// The parameter sets of the implementation block `impl_name`, created
    /// empty if the template has no block of that name yet; the caller adds
    /// one parameter set per expansion of the block.
    pub fn add_impl(&mut self, impl_name: String) -> (arms: &mut Vec<Params>)
        ensures
            final(self).text() == old(self).text(),
            final(self).params() == old(self).params(),
            match lookup_index(old(self).impls(), impl_name@) {
                Some(i) => {
                    &&& arms_view(arms@) == old(self).impls()[i].1
                    &&& final(self).impls() == old(self).impls().update(
                        i,
                        (impl_name@, arms_view(final(arms)@)),
                    )
                },
                None => {
                    &&& arms@ == Seq::<Params>::empty()
                    &&& final(self).impls() == old(self).impls().push(
                        (impl_name@, arms_view(final(arms)@)),
                    )
                },
            },
            names_unique(final(self).impls()),
    {
        proof {
            use_type_invariant(&*self);
        }
        let name = chars_of(impl_name.as_str());
        proof {
            lemma_lookup_index(self.impls(), name@);
        }
        let i = match self.impl_index(&name) {
            Some(i) => i,
            None => {
                let ghost before = self.impls();
                let mut whole = Template::from_chars(Vec::new());
                std::mem::swap(&mut whole, self);
                proof {
                    use_type_invariant(&whole);
                }
                let Template { template_str, params, mut impl_names, mut impl_arms } = whole;
                let ghost old_names = impl_names@;
                let ghost old_arms = impl_arms@;
                assert(before == impls_view(old_names, old_arms));
                impl_names.push(name);
                impl_arms.push(Vec::new());
                assert(arms_view(impl_arms@[old_names.len() as int]@) =~= Seq::<Pairs>::empty());
                assert forall|k: int| 0 <= k < old_names.len() implies #[trigger] impl_names@[k]@
                    != impl_name@ by {
                    assert(before[k].0 == old_names[k]@);
                }
                assert forall|k: int| 0 <= k < old_names.len() implies #[trigger] impls_view(
                    impl_names@,
                    impl_arms@,
                )[k] == impls_view(old_names, old_arms)[k] by {
                    assert(impl_names@[k] == old_names[k]);
                    assert(impl_arms@[k] == old_arms[k]);
                }
                assert(impls_view(impl_names@, impl_arms@) =~= before.push(
                    (impl_name@, Seq::<Pairs>::empty()),
                ));
                let n = impl_names.len() - 1;
                *self = Template { template_str, params, impl_names, impl_arms };
                n
            },
        };
        proof {
            use_type_invariant(&*self);
        }
        let ghost pre_names = self.impl_names@;
        let ghost pre_arms = self.impl_arms@;
        assert(impls_view(pre_names, pre_arms)[i as int].0 == impl_name@);
        let arms = &mut self.impl_arms[i];
        proof {
            assert(impls_view(pre_names, pre_arms.update(i as int, *final(arms))) =~= impls_view(
                pre_names,
                pre_arms,
            ).update(i as int, (impl_name@, arms_view(final(arms)@))));
        }
        arms
    }
}

impl Template {
    /// A copy of the template, text and parameters.
    pub fn copy(&self) -> (t: Template)
        ensures
            t.text() == self.text(),
            t.params() == self.params(),
            t.impls() == self.impls(),
    {
        proof {
            use_type_invariant(self);
        }
        let mut names: Vec<Vec<char>> = Vec::new();
        let mut all_arms: Vec<Vec<Params>> = Vec::new();
        let mut i: usize = 0;
        while i < self.impl_names.len()
            invariant
                i <= self.impl_names.len(),
                self.impl_names.len() == self.impl_arms.len(),
                names@.len() == all_arms@.len(),
                impls_view(names@, all_arms@) == self.impls().take(i as int),
            decreases self.impl_names.len() - i,
        {
            let src = &self.impl_arms[i];
            let mut arms: Vec<Params> = Vec::new();
            let mut j: usize = 0;
            while j < src.len()
                invariant
                    j <= src.len(),
                    arms_view(arms@) == arms_view(src@).take(j as int),
                decreases src.len() - j,
            {
                let ghost before = arms_view(arms@);
                arms.push(src[j].copy());
                assert(arms_view(arms@) =~= before.push(src@[j as int]@));
                assert(arms_view(src@).take(j + 1) =~= arms_view(src@).take(j as int).push(
                    src@[j as int]@,
                ));
                j = j + 1;
            }
            assert(arms_view(src@).take(src.len() as int) =~= arms_view(src@));
            let ghost before = impls_view(names@, all_arms@);
            names.push(copy_chars(&self.impl_names[i]));
            all_arms.push(arms);
            assert(impls_view(names@, all_arms@) =~= before.push(self.impls()[i as int]));
            assert(self.impls().take(i + 1) =~= self.impls().take(i as int).push(
                self.impls()[i as int],
            ));
            i = i + 1;
        }
        assert(self.impls().take(self.impl_names.len() as int) =~= self.impls());
        assert forall|k: int| 0 <= k < names@.len() implies #[trigger] names@[k]@
            == self.impl_names@[k]@ by {
            assert(impls_view(names@, all_arms@)[k].0 == self.impls()[k].0);
        }
        Template {
            template_str: copy_chars(&self.template_str),
            params: self.params.copy(),
            impl_names: names,
            impl_arms: all_arms,
        }
    }
}

impl Clone for Template {
    fn clone(&self) -> (t: Self)
        ensures
            t.text() == self.text(),
            t.params() == self.params(),
            t.impls() == self.impls(),
    {
        self.copy()
    }
}

impl Default for Template {
    fn default() -> (t: Self)
        ensures
            t.text() == Seq::<char>::empty(),
            t.params() == Seq::<(Seq<char>, Seq<char>)>::empty(),
            t.impls() == Seq::<(Seq<char>, Seq<Pairs>)>::empty(),
    {
        Template::from_chars(Vec::new())
    }
}

impl From<String> for Template {
    fn from(s: String) -> (t: Template)
        ensures
            t.text() == s@,
            t.params() == Seq::<(Seq<char>, Seq<char>)>::empty(),
            t.impls() == Seq::<(Seq<char>, Seq<Pairs>)>::empty(),
    {
        Template::from_chars(chars_of(s.as_str()))
    }
}

impl vstd::std_specs::convert::FromSpecImpl<String> for Template {
    open spec fn obeys_from_spec() -> bool {
        false
    }

    open spec fn from_spec(s: String) -> Template {
        arbitrary()
    }
}

impl<'a> From<&'a str> for Template {
    fn from(s: &'a str) -> (t: Template)
        ensures
            t.text() == s@,
            t.params() == Seq::<(Seq<char>, Seq<char>)>::empty(),
            t.impls() == Seq::<(Seq<char>, Seq<Pairs>)>::empty(),
    {
        Template::from_chars(chars_of(s))
    }
}

impl<'a> From<std::borrow::Cow<'a, str>> for Template {
    fn from(s: std::borrow::Cow<'a, str>) -> (t: Template)
        ensures
            t.text() == s@,
            t.params() == Seq::<(Seq<char>, Seq<char>)>::empty(),
            t.impls() == Seq::<(Seq<char>, Seq<Pairs>)>::empty(),
    {
        let text = match &s {
            std::borrow::Cow::Borrowed(b) => chars_of(b),
            std::borrow::Cow::Owned(o) => chars_of(o.as_str()),
        };
        Template::from_chars(text)
    }
}

impl<'a> vstd::std_specs::convert::FromSpecImpl<std::borrow::Cow<'a, str>> for Template {
    open spec fn obeys_from_spec() -> bool {
        false
    }

    open spec fn from_spec(s: std::borrow::Cow<'a, str>) -> Template {
        arbitrary()
    }
}

impl<'a> vstd::std_specs::convert::FromSpecImpl<&'a str> for Template {
    open spec fn obeys_from_spec() -> bool {
        false
    }

    open spec fn from_spec(s: &'a str) -> Template {
        arbitrary()
    }
}

} // verus!
