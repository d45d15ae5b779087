//! The environment that a document is resolved against.

use vstd::prelude::*;

verus! {

/// What the environment answers when asked for a variable.
#[derive(Debug, PartialEq, Eq)]
pub enum Lookup {
    /// The variable is set; holds its value.
    Present(String),
    /// The variable is not set.
    Absent,
    /// The variable is set, but its value cannot be had; holds the reason.
    Invalid(String),
}

/// Model of a [`Lookup`].
pub enum LookupView {
    Present(Seq<char>),
    Absent,
    Invalid(Seq<char>),
}

impl View for Lookup {
    type V = LookupView;

    open spec fn view(&self) -> LookupView {
        match self {
            Lookup::Present(value) => LookupView::Present(value@),
            Lookup::Absent => LookupView::Absent,
            Lookup::Invalid(reason) => LookupView::Invalid(reason@),
        }
    }
}

impl Clone for Lookup {
    fn clone(&self) -> (copy: Lookup)
        ensures
            copy@ == self@,
    {
        match self {
            Lookup::Present(value) => Lookup::Present(value.clone()),
            Lookup::Absent => Lookup::Absent,
            Lookup::Invalid(reason) => Lookup::Invalid(reason.clone()),
        }
    }
}

/// The answer of an environment, given as a map from the names of its
/// variables, for one name. A name outside the map is not set.
pub open spec fn lookup_in(variables: Map<Seq<char>, LookupView>, name: Seq<char>) -> LookupView {
    if variables.dom().contains(name) {
        variables[name]
    } else {
        LookupView::Absent
    }
}

/// The map that a list of settings builds, a later setting of a name
/// replacing an earlier one.
pub open spec fn settings_map(settings: Seq<(String, Lookup)>) -> Map<Seq<char>, LookupView>
    decreases settings.len(),
{
    if settings.len() == 0 {
        Map::empty()
    } else {
        settings_map(settings.drop_last()).insert(settings.last().0@, settings.last().1@)
    }
}

/// The settings after the first `from` decide nothing for `name` when none of
/// them names it.
proof fn lemma_later_settings(settings: Seq<(String, Lookup)>, from: int, name: Seq<char>)
    requires
        0 <= from <= settings.len(),
        forall|j: int| from <= j < settings.len() ==> settings[j].0@ != name,
    ensures
        lookup_in(settings_map(settings), name) == lookup_in(
            settings_map(settings.take(from)),
            name,
        ),
    decreases settings.len(),
{
    if from == settings.len() {
        assert(settings.take(from) =~= settings);
    } else {
        let shorter = settings.drop_last();
        lemma_later_settings(shorter, from, name);
        assert(shorter.take(from) =~= settings.take(from));
    }
}

/// A snapshot of environment variables.
#[derive(Debug)]
pub struct Environment {
    settings: Vec<(String, Lookup)>,
}

impl View for Environment {
    type V = Map<Seq<char>, LookupView>;

    closed spec fn view(&self) -> Map<Seq<char>, LookupView> {
        settings_map(self.settings@)
    }
}

impl Environment {
    /// An environment in which no variable is set.
    pub fn new() -> (environment: Environment)
        ensures
            environment@ == Map::<Seq<char>, LookupView>::empty(),
    {
        Environment { settings: Vec::new() }
    }

    /// Sets the variable `name` to `value`.
    pub fn set(&mut self, name: &str, value: &str)
        ensures
            final(self)@ == old(self)@.insert(name@, LookupView::Present(value@)),
    {
        let setting = (name.to_owned(), Lookup::Present(value.to_owned()));
        self.settings.push(setting);
        assert(self.settings@.drop_last() =~= old(self).settings@);
    }

    /// Marks the variable `name` as set to a value that cannot be had, for the
    /// given reason.
    pub fn set_invalid(&mut self, name: &str, reason: &str)
        ensures
            final(self)@ == old(self)@.insert(name@, LookupView::Invalid(reason@)),
    {
        let setting = (name.to_owned(), Lookup::Invalid(reason.to_owned()));
        self.settings.push(setting);
        assert(self.settings@.drop_last() =~= old(self).settings@);
    }

    /// Unsets the variable `name`.
    pub fn remove(&mut self, name: &str)
        ensures
            final(self)@ == old(self)@.remove(name@),
    {
        let wanted = name.to_owned();
        let mut kept: Vec<(String, Lookup)> = Vec::new();
        let mut i: usize = 0;
        while i < self.settings.len()
            invariant
                i <= self.settings.len(),
                wanted@ == name@,
                self.settings == old(self).settings,
                settings_map(kept@) == settings_map(self.settings@.take(i as int)).remove(name@),
            decreases self.settings.len() - i,
        {
            assert(self.settings@.take(i + 1).drop_last() =~= self.settings@.take(i as int));
            if self.settings[i].0 != wanted {
                let ghost kept_before = kept@;
                let setting = (self.settings[i].0.clone(), self.settings[i].1.clone());
                kept.push(setting);
                assert(kept@.drop_last() =~= kept_before);
            }
            i += 1;
        }
        assert(self.settings@.take(i as int) =~= self.settings@);
        self.settings = kept;
    }

    /// What the environment answers for the variable `name`.
    pub fn lookup(&self, name: &str) -> (answer: Lookup)
        ensures
            answer@ == lookup_in(self@, name@),
    {
        let wanted = name.to_owned();
        let mut i: usize = self.settings.len();
        while i > 0
            invariant
                i <= self.settings.len(),
                wanted@ == name@,
                forall|j: int| i <= j < self.settings.len() ==> self.settings@[j].0@ != name@,
            decreases i,
        {
            i -= 1;
            if self.settings[i].0 == wanted {
                proof {
                    lemma_later_settings(self.settings@, i + 1, name@);
                }
                return self.settings[i].1.clone();
            }
        }
        proof {
            lemma_later_settings(self.settings@, 0, name@);
        }
        Lookup::Absent
    }
}

} // verus!
