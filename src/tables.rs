//! The read-only mapping tables that drive the translation.

use crate::tree::str_eq;
use vstd::prelude::*;

verus! {

/// What becomes of a top-level field of the source document.
#[derive(Debug)]
pub enum FieldStatus {
    Deprecated,
    Ignored,
    /// Relocated under the named module of the target document.
    Valid(String),
}

pub enum FieldStatusV {
    Deprecated,
    Ignored,
    Valid(Seq<char>),
}

impl View for FieldStatus {
    type V = FieldStatusV;

    open spec fn view(&self) -> FieldStatusV {
        match self {
            FieldStatus::Deprecated => FieldStatusV::Deprecated,
            FieldStatus::Ignored => FieldStatusV::Ignored,
            FieldStatus::Valid(m) => FieldStatusV::Valid(m@),
        }
    }
}

/// The status that a table entry's text stands for.
pub open spec fn status_of(s: Seq<char>) -> FieldStatusV {
    if s == "deprecated"@ {
        FieldStatusV::Deprecated
    } else if s == "ignore"@ {
        FieldStatusV::Ignored
    } else {
        FieldStatusV::Valid(s)
    }
}

impl FieldStatus {
    /// Reads a status from its table text: `"deprecated"`, `"ignore"`, or the
    /// name of a target module.
    pub fn from_str(input: &str) -> (r: FieldStatus)
        ensures
            r@ == status_of(input@),
    {
        if str_eq(input, "deprecated") {
            proof {
                reveal_strlit("deprecated");
            }
            FieldStatus::Deprecated
        } else if str_eq(input, "ignore") {
            proof {
                reveal_strlit("ignore");
            }
            FieldStatus::Ignored
        } else {
            proof {
                reveal_strlit("deprecated");
                reveal_strlit("ignore");
            }
            FieldStatus::Valid(input.to_string())
        }
    }
}

/// Where a legacy pawn stat goes on the target side.
#[derive(Debug)]
pub struct PawnTarget {
    /// The module under the enemy entry, or `"None"` for the entry itself.
    pub module: String,
    pub field: String,
}

/// The mapping tables, loaded once and never changed.
#[derive(Debug)]
pub struct Tables {
    pub top_modules: Vec<(String, FieldStatus)>,
    pub pawn_stats: Vec<(String, PawnTarget)>,
    pub elite_allowlist: Vec<String>,
    pub valid_controls: Vec<String>,
}

pub struct TablesV {
    pub top_modules: Seq<(Seq<char>, FieldStatusV)>,
    pub pawn_stats: Seq<(Seq<char>, (Seq<char>, Seq<char>))>,
    pub elite_allowlist: Seq<Seq<char>>,
    pub valid_controls: Seq<Seq<char>>,
}

impl View for Tables {
    type V = TablesV;

    open spec fn view(&self) -> TablesV {
        TablesV {
            top_modules: self.top_modules@.map_values(|e: (String, FieldStatus)| (e.0@, e.1@)),
            pawn_stats: self.pawn_stats@.map_values(
                |e: (String, PawnTarget)| (e.0@, (e.1.module@, e.1.field@)),
            ),
            elite_allowlist: self.elite_allowlist@.map_values(|s: String| s@),
            valid_controls: self.valid_controls@.map_values(|s: String| s@),
        }
    }
}

/// The value of the first entry under `k`.
pub open spec fn lookup<V>(es: Seq<(Seq<char>, V)>, k: Seq<char>) -> Option<V>
    decreases es.len(),
{
    if es.len() == 0 {
        None
    } else if es[0].0 == k {
        Some(es[0].1)
    } else {
        lookup(es.drop_first(), k)
    }
}

proof fn lemma_lookup_skip<V>(es: Seq<(Seq<char>, V)>, k: Seq<char>, i: int)
    requires
        0 <= i < es.len(),
        es[i].0 != k,
    ensures
        lookup(es.skip(i), k) == lookup(es.skip(i + 1), k),
{
    assert(es.skip(i).drop_first() =~= es.skip(i + 1));
}

fn contains_str(list: &Vec<String>, s: &str) -> (r: bool)
    ensures
        r == list@.map_values(|x: String| x@).contains(s@),
{
    let ghost m = list@.map_values(|x: String| x@);
    let mut i: usize = 0;
    while i < list.len()
        invariant
            i <= list@.len(),
            m == list@.map_values(|x: String| x@),
            forall|j: int| 0 <= j < i ==> m[j] != s@,
        decreases list@.len() - i,
    {
        if str_eq(list[i].as_str(), s) {
            assert(m[i as int] == s@);
            return true;
        }
        i = i + 1;
    }
    false
}

impl Tables {
    /// The status of a top-level field, if the table has one.
    pub fn field_status(&self, key: &str) -> (r: Option<&FieldStatus>)
        ensures
            match r {
                Some(st) => lookup(self@.top_modules, key@) == Some(st@),
                None => lookup(self@.top_modules, key@) is None,
            },
    {
        let ghost es = self@.top_modules;
        let mut i: usize = 0;
        proof {
            assert(es.skip(0) =~= es);
        }
        while i < self.top_modules.len()
            invariant
                i <= es.len(),
                es == self@.top_modules,
                lookup(es, key@) == lookup(es.skip(i as int), key@),
            decreases es.len() - i,
        {
            if str_eq(self.top_modules[i].0.as_str(), key) {
                return Some(&self.top_modules[i].1);
            }
            proof {
                lemma_lookup_skip(es, key@, i as int);
            }
            i = i + 1;
        }
        None
    }

    /// Where a pawn stat goes, if the table knows it.
    pub fn pawn_target(&self, stat: &str) -> (r: Option<&PawnTarget>)
        ensures
            match r {
                Some(t) => lookup(self@.pawn_stats, stat@) == Some((t.module@, t.field@)),
                None => lookup(self@.pawn_stats, stat@) is None,
            },
    {
        let ghost es = self@.pawn_stats;
        let mut i: usize = 0;
        proof {
            assert(es.skip(0) =~= es);
        }
        while i < self.pawn_stats.len()
            invariant
                i <= es.len(),
                es == self@.pawn_stats,
                lookup(es, stat@) == lookup(es.skip(i as int), stat@),
            decreases es.len() - i,
        {
            if str_eq(self.pawn_stats[i].0.as_str(), stat) {
                return Some(&self.pawn_stats[i].1);
            }
            proof {
                lemma_lookup_skip(es, stat@, i as int);
            }
            i = i + 1;
        }
        None
    }

    /// Whether `id` is a vanilla elite enemy.
    pub fn is_vanilla_elite(&self, id: &str) -> (r: bool)
        ensures
            r == self@.elite_allowlist.contains(id@),
    {
        contains_str(&self.elite_allowlist, id)
    }

    /// Whether `control` is a valid enemy control.
    pub fn is_valid_control(&self, control: &str) -> (r: bool)
        ensures
            r == self@.valid_controls.contains(control@),
    {
        contains_str(&self.valid_controls, control)
    }
}

} // verus!
