use vstd::prelude::*;
use vstd::string::*;
use std::collections::HashMap;
use crate::analysis::option::Options;
use crate::analysis::option::strings_view;
use crate::def_id::DefId;
use crate::def_id::lemma_key_injective;
use crate::text::same_text;

verus! {

broadcast use vstd::std_specs::hash::group_hash_axioms;

/// Caches the weak topological order of each function, so that a function
/// analyzed several times has it computed once.
pub struct WtoCache<W> {
    value: HashMap<u64, W>,
}

impl<W> WtoCache<W> {
    /// The cached orders, by the key of their function's definition.
    pub closed spec fn entries(&self) -> Map<u64, W> {
        self.value@
    }

    /// The cached order of a function, if any.
    pub fn get(&self, def_id: DefId) -> (r: Option<&W>)
        ensures
            match r {
                Some(w) => self.entries().contains_key(def_id.key_spec()) && *w == self.entries()[def_id.key_spec()],
                None => !self.entries().contains_key(def_id.key_spec()),
            },
    {
        self.value.get(&def_id.key())
    }

    /// Caches the order of a function, replacing any earlier one.
    pub fn insert(&mut self, def_id: DefId, wto: W)
        ensures
            final(self).entries() == old(self).entries().insert(def_id.key_spec(), wto),
    {
        self.value.insert(def_id.key(), wto);
    }
}

impl<W> Default for WtoCache<W> {
    fn default() -> (c: Self)
        ensures
            c.entries() == Map::<u64, W>::empty(),
    {
        Self { value: HashMap::new() }
    }
}

/// What the entry point selection reads of a definition that has a body.
pub struct FnEntry {
    /// The definition.
    pub def_id: DefId,
    /// Its name.
    pub name: String,
    /// It is a function or an associated function.
    pub is_fn: bool,
    /// It contains unsafe code.
    pub contains_unsafe: bool,
}

/// What the analysis does, given its options and the definitions with a body.
pub enum EntrySelection {
    /// Analyzes these entry points, the first one first.
    Analyze(Vec<DefId>),
    /// Only lists the functions' names, each once.
    ShowNames(Vec<String>),
    /// Only lists the functions' definition indices.
    ShowIndices(Vec<u32>),
    /// Only unsafe functions are to be analyzed, and there is none.
    NoUnsafeFunctions,
    /// No function is the requested entry point.
    EntryNotFound,
}

/// The functions that contain unsafe code, in order.
pub open spec fn unsafe_entries(fns: Seq<FnEntry>) -> Seq<DefId>
    decreases fns.len(),
{
    if fns.len() == 0 {
        Seq::empty()
    } else {
        let prefix = unsafe_entries(fns.drop_last());
        if fns.last().is_fn && fns.last().contains_unsafe {
            prefix.push(fns.last().def_id)
        } else {
            prefix
        }
    }
}

/// The functions' names, each once, in the order they first appear.
pub open spec fn distinct_names(fns: Seq<FnEntry>) -> Seq<Seq<char>>
    decreases fns.len(),
{
    if fns.len() == 0 {
        Seq::empty()
    } else {
        let prefix = distinct_names(fns.drop_last());
        if fns.last().is_fn && !prefix.contains(fns.last().name@) {
            prefix.push(fns.last().name@)
        } else {
            prefix
        }
    }
}

/// The functions' definition indices, in order.
pub open spec fn fn_indices(fns: Seq<FnEntry>) -> Seq<u32>
    decreases fns.len(),
{
    if fns.len() == 0 {
        Seq::empty()
    } else {
        let prefix = fn_indices(fns.drop_last());
        if fns.last().is_fn {
            prefix.push(fns.last().def_id.index)
        } else {
            prefix
        }
    }
}

/// The function is the requested entry point: the one with the requested
/// definition index when one is requested, else the one with the requested
/// name.
pub open spec fn is_requested(f: FnEntry, options: Options) -> bool {
    f.is_fn && match options.entry_def_id_index {
        Some(index) => f.def_id.index == index,
        None => f.name@ == options.entry_point@,
    }
}

/// The last function that is the requested entry point.
pub open spec fn requested_entry(fns: Seq<FnEntry>, options: Options) -> Option<DefId>
    decreases fns.len(),
{
    if fns.len() == 0 {
        None
    } else if is_requested(fns.last(), options) {
        Some(fns.last().def_id)
    } else {
        requested_entry(fns.drop_last(), options)
    }
}

fn name_listed(names: &Vec<String>, name: &str) -> (r: bool)
    ensures
        r == strings_view(names@).contains(name@),
{
    let ghost v = strings_view(names@);
    let mut i: usize = 0;
    while i < names.len()
        invariant
            i <= names.len(),
            v == strings_view(names@),
            forall|j: int| 0 <= j < i ==> v[j] != name@,
        decreases names.len() - i,
    {
        if same_text(names[i].as_str(), name) {
            assert(v[i as int] == name@);
            return true;
        }
        i = i + 1;
    }
    false
}

/// Decides what the analysis does: with `unsafe_only`, it analyzes every
/// function that contains unsafe code; else with `show_entries` it only lists
/// the functions' names, and with `show_entries_index` their indices; else it
/// analyzes the requested entry point.
pub fn select_entry_points(options: &Options, fns: &Vec<FnEntry>) -> (r: EntrySelection)
    ensures
        options.unsafe_only && unsafe_entries(fns@).len() == 0 ==> r is NoUnsafeFunctions,
        options.unsafe_only && unsafe_entries(fns@).len() > 0 ==> (r matches EntrySelection::Analyze(v) && v@
            == unsafe_entries(fns@)),
        !options.unsafe_only && options.show_entries ==> (r matches EntrySelection::ShowNames(v) && strings_view(v@)
            == distinct_names(fns@)),
        !options.unsafe_only && !options.show_entries && options.show_entries_index ==> (r matches EntrySelection::ShowIndices(
            v,
        ) && v@ == fn_indices(fns@)),
        !options.unsafe_only && !options.show_entries && !options.show_entries_index ==> match requested_entry(
            fns@,
            *options,
        ) {
            Some(d) => r matches EntrySelection::Analyze(v) && v@ == seq![d],
            None => r is EntryNotFound,
        },
{
    if options.unsafe_only {
        let mut entries: Vec<DefId> = Vec::new();
        let mut i: usize = 0;
        while i < fns.len()
            invariant
                i <= fns.len(),
                entries@ == unsafe_entries(fns@.take(i as int)),
            decreases fns.len() - i,
        {
            proof {
                assert(fns@.take(i + 1).drop_last() == fns@.take(i as int));
            }
            if fns[i].is_fn && fns[i].contains_unsafe {
                entries.push(fns[i].def_id);
            }
            i = i + 1;
        }
        proof {
            assert(fns@.take(fns.len() as int) == fns@);
        }
        if entries.len() == 0 {
            return EntrySelection::NoUnsafeFunctions;
        }
        EntrySelection::Analyze(entries)
    } else if options.show_entries {
        let mut names: Vec<String> = Vec::new();
        let mut i: usize = 0;
        while i < fns.len()
            invariant
                i <= fns.len(),
                strings_view(names@) == distinct_names(fns@.take(i as int)),
            decreases fns.len() - i,
        {
            proof {
                assert(fns@.take(i + 1).drop_last() == fns@.take(i as int));
            }
            if fns[i].is_fn && !name_listed(&names, fns[i].name.as_str()) {
                let ghost before = names@;
                let t = String::from_str(fns[i].name.as_str());
                names.push(t);
                proof {
                    assert(strings_view(names@) =~= strings_view(before).push(t@));
                }
            }
            i = i + 1;
        }
        proof {
            assert(fns@.take(fns.len() as int) == fns@);
        }
        EntrySelection::ShowNames(names)
    } else if options.show_entries_index {
        let mut indices: Vec<u32> = Vec::new();
        let mut i: usize = 0;
        while i < fns.len()
            invariant
                i <= fns.len(),
                indices@ == fn_indices(fns@.take(i as int)),
            decreases fns.len() - i,
        {
            proof {
                assert(fns@.take(i + 1).drop_last() == fns@.take(i as int));
            }
            if fns[i].is_fn {
                indices.push(fns[i].def_id.index);
            }
            i = i + 1;
        }
        proof {
            assert(fns@.take(fns.len() as int) == fns@);
        }
        EntrySelection::ShowIndices(indices)
    } else {
        let mut entry: Option<DefId> = None;
        let mut i: usize = 0;
        while i < fns.len()
            invariant
                i <= fns.len(),
                entry == requested_entry(fns@.take(i as int), *options),
            decreases fns.len() - i,
        {
            proof {
                assert(fns@.take(i + 1).drop_last() == fns@.take(i as int));
                assert(fns@.take(i + 1).last() == fns@[i as int]);
            }
            if fns[i].is_fn {
                let requested = match options.entry_def_id_index {
                    Some(index) => fns[i].def_id.index == index,
                    None => same_text(fns[i].name.as_str(), options.entry_point.as_str()),
                };
                if requested {
                    entry = Some(fns[i].def_id);
                }
            }
            i = i + 1;
        }
        proof {
            assert(fns@.take(fns.len() as int) == fns@);
        }
        match entry {
            Some(d) => {
                let mut v: Vec<DefId> = Vec::new();
                v.push(d);
                EntrySelection::Analyze(v)
            },
            None => EntrySelection::EntryNotFound,
        }
    }
}


/// A read of the cache after an insert gives what was inserted, for the
/// function inserted; for every other function it gives what it gave before.
pub proof fn law_wto_cache_read_after_insert<W>(
    before: WtoCache<W>,
    after: WtoCache<W>,
    def_id: DefId,
    wto: W,
    other: DefId,
)
    requires
        after.entries() == before.entries().insert(def_id.key_spec(), wto),
    ensures
        after.entries().contains_key(def_id.key_spec()),
        after.entries()[def_id.key_spec()] == wto,
        other != def_id ==> after.entries().contains_key(other.key_spec()) == before.entries().contains_key(
            other.key_spec(),
        ),
        other != def_id && before.entries().contains_key(other.key_spec()) ==> after.entries()[other.key_spec()]
            == before.entries()[other.key_spec()],
{
    lemma_key_injective(def_id, other);
}

} // verus!
