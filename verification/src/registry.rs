//! The resolution registry: the state of each definition, the names that
//! are taken, and the entries emitted so far. One resolution owns one
//! registry, and nothing of it outlives the resolution but the entries. The
//! final names of the keys are fixed before the first visit; the registry
//! holds them as the first of the names that are taken.

use vstd::prelude::*;
use crate::model::{classes_view, enums_view, ResolvedClass, ResolvedEnum, ResolvedField};
use crate::names::fresh_name;
use crate::semantics::{ProgressView, RegistryView};
use crate::text::deep;

verus! {

/// How far the resolution of a definition has come.
pub enum Progress {
    Unvisited,
    InProgress,
    Resolved(ResolvedField),
}

impl View for Progress {
    type V = ProgressView;

    open spec fn view(&self) -> ProgressView {
        match self {
            Progress::Unvisited => ProgressView::Unvisited,
            Progress::InProgress => ProgressView::InProgress,
            Progress::Resolved(field) => ProgressView::Resolved(field@),
        }
    }
}

/// The views of a list of states.
pub open spec fn states_view(v: Seq<Progress>) -> Seq<ProgressView> {
    Seq::new(v.len(), |i: int| v[i]@)
}

/// The registry of one resolution.
pub struct Registry {
    pub states: Vec<Progress>,
    pub used: Vec<String>,
    pub enums: Vec<ResolvedEnum>,
    pub classes: Vec<ResolvedClass>,
}

impl View for Registry {
    type V = RegistryView;

    open spec fn view(&self) -> RegistryView {
        RegistryView {
            states: states_view(self.states@),
            used: deep(self.used@),
            enums: enums_view(self.enums@),
            classes: classes_view(self.classes@),
        }
    }
}

/// The view of an optional name.
pub open spec fn name_view(name: Option<&String>) -> Option<Seq<char>> {
    match name {
        Some(n) => Some(n@),
        None => None,
    }
}

impl Registry {
    /// A registry for `names.len()` definitions, none of them visited, in
    /// which `names` are taken.
    pub fn new(names: &Vec<String>) -> (r: Registry)
        ensures
            r@.states == Seq::new(names@.len(), |i: int| ProgressView::Unvisited),
            r@.used == deep(names@),
            r@.enums.len() == 0,
            r@.classes.len() == 0,
    {
        let mut states: Vec<Progress> = Vec::new();
        let mut used: Vec<String> = Vec::new();
        let mut i: usize = 0;
        while i < names.len()
            invariant
                i <= names.len(),
                states.len() == i,
                used.len() == i,
                forall|j: int| 0 <= j < i ==> states[j] == Progress::Unvisited,
                forall|j: int| 0 <= j < i ==> used[j]@ == names[j]@,
            decreases names.len() - i,
        {
            states.push(Progress::Unvisited);
            used.push(names[i].clone());
            i += 1;
        }
        let r = Registry { states, used, enums: Vec::new(), classes: Vec::new() };
        assert(r@.states =~= Seq::new(names@.len(), |i: int| ProgressView::Unvisited));
        assert(r@.used =~= deep(names@));
        r
    }

    /// The state of definition `i`.
    pub fn state(&self, i: usize) -> (r: Progress)
        requires
            i < self@.states.len(),
        ensures
            r@ == self@.states[i as int],
    {
        match &self.states[i] {
            Progress::Unvisited => Progress::Unvisited,
            Progress::InProgress => Progress::InProgress,
            Progress::Resolved(field) => Progress::Resolved(field.duplicate()),
        }
    }

    /// Whether no visit has reached definition `i` yet.
    pub fn is_unvisited(&self, i: usize) -> (r: bool)
        requires
            i < self@.states.len(),
        ensures
            r == (self@.states[i as int] is Unvisited),
    {
        match &self.states[i] {
            Progress::Unvisited => true,
            _ => false,
        }
    }

    /// Records `state` for definition `i`.
    pub fn set_state(&mut self, i: usize, state: Progress)
        requires
            i < old(self)@.states.len(),
        ensures
            final(self)@ == old(self)@.with_state(i as int, state@),
    {
        self.states.set(i, state);
        assert(states_view(self.states@) =~= old(self)@.states.update(i as int, state@));
    }

    /// Emits an enum.
    pub fn emit_enum(&mut self, entry: ResolvedEnum)
        ensures
            final(self)@ == old(self)@.with_enum(entry@),
    {
        self.enums.push(entry);
        assert(enums_view(self.enums@) =~= old(self)@.enums.push(entry@));
    }

    /// Emits a class.
    pub fn emit_class(&mut self, entry: ResolvedClass)
        ensures
            final(self)@ == old(self)@.with_class(entry@),
    {
        self.classes.push(entry);
        assert(classes_view(self.classes@) =~= old(self)@.classes.push(entry@));
    }

    /// The name of the next entry: `given` for a definition, else a fresh
    /// name made from `stem`, which is taken from now on.
    pub fn name_entry(&mut self, given: Option<&String>, stem: &str) -> (name: String)
        ensures
            (final(self)@, name@) == old(self)@.named(name_view(given), stem@),
    {
        match given {
            Some(n) => n.clone(),
            None => {
                let name = fresh_name(&self.used, String::from_str(stem));
                self.used.push(name.clone());
                assert(deep(self.used@) =~= old(self)@.used.push(name@));
                name
            },
        }
    }
}

} // verus!
