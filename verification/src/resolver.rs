//! The call index resolver: a metadata snapshot mapping human-readable
//! (module name, call name) pairs to the numeric index pair of the
//! dispatchable function, for the currently connected runtime version.
//!
//! The snapshot is supplied by an external metadata provider; this module
//! never fetches or parses raw metadata itself. Once a snapshot is held,
//! resolution is synchronous and pure: repeated lookups of the same pair
//! return the identical index.

use vstd::prelude::*;
use crate::call::CallIndex;
use crate::errors::ComposeError;

verus! {

/// One dispatchable function of the runtime: its module name, call name,
/// and numeric index pair.
pub struct MetadataEntry {
    pub module_name: String,
    pub call_name: String,
    pub index: CallIndex,
}

/// The mathematical model of a metadata entry.
pub struct EntryModel {
    pub module: Seq<char>,
    pub call: Seq<char>,
    pub index: CallIndex,
}

impl View for MetadataEntry {
    type V = EntryModel;

    open spec fn view(&self) -> EntryModel {
        EntryModel { module: self.module_name@, call: self.call_name@, index: self.index }
    }
}

/// What looking a name pair up in a snapshot yields: the index of the
/// first entry carrying both names, if any.
pub open spec fn resolve_spec(
    md: Seq<EntryModel>,
    module: Seq<char>,
    call: Seq<char>,
) -> Option<CallIndex>
    decreases md.len(),
{
    if md.len() == 0 {
        None
    } else if md[0].module == module && md[0].call == call {
        Some(md[0].index)
    } else {
        resolve_spec(md.skip(1), module, call)
    }
}

/// No two entries of a well-formed snapshot share a name pair.
pub open spec fn metadata_wf(md: Seq<EntryModel>) -> bool {
    forall|i: int, j: int|
        0 <= i < j < md.len() ==> !(#[trigger] md[i].module == #[trigger] md[j].module
            && md[i].call == md[j].call)
}

/// A snapshot of runtime metadata: the dispatchable functions the
/// connected runtime offers, each name pair listed at most once.
pub struct CallMetadata {
    entries: Vec<MetadataEntry>,
}

impl View for CallMetadata {
    type V = Seq<EntryModel>;

    closed spec fn view(&self) -> Seq<EntryModel> {
        self.entries@.map_values(|e: MetadataEntry| e@)
    }
}

impl CallMetadata {
    /// An empty snapshot.
    pub fn new() -> (r: CallMetadata)
        ensures
            r@ == Seq::<EntryModel>::empty(),
            metadata_wf(r@),
    {
        let r = CallMetadata { entries: Vec::new() };
        proof {
            assert(r@ =~= Seq::<EntryModel>::empty());
        }
        r
    }

    /// Add one entry. Returns `true` and appends it if its name pair is
    /// new; leaves the snapshot unchanged and returns `false` otherwise,
    /// so a well-formed snapshot stays well-formed.
    pub fn register(&mut self, entry: MetadataEntry) -> (added: bool)
        ensures
            added == (resolve_spec(old(self)@, entry.module_name@, entry.call_name@) is None),
            added ==> final(self)@ == old(self)@.push(entry@),
            !added ==> final(self)@ == old(self)@,
            metadata_wf(old(self)@) ==> metadata_wf(final(self)@),
    {
        let found = self.lookup(&entry.module_name, &entry.call_name);
        match found {
            Ok(_) => false,
            Err(_) => {
                proof {
                    lemma_resolve_none_no_match(self@, entry.module_name@, entry.call_name@);
                }
                let ghost before = self@;
                self.entries.push(entry);
                proof {
                    assert(self@ =~= before.push(entry@));
                    if metadata_wf(before) {
                        assert forall|i: int, j: int| 0 <= i < j < self@.len() implies !(
                            #[trigger] self@[i].module == #[trigger] self@[j].module
                            && self@[i].call == self@[j].call) by {
                            if j < self@.len() - 1 {
                                assert(before[i] == self@[i] && before[j] == self@[j]);
                            } else {
                                assert(self@[j] == entry@);
                                assert(before[i] == self@[i]);
                            }
                        }
                    }
                }
                true
            },
        }
    }

    /// Look a (module name, call name) pair up: the index of the entry
    /// carrying both names, or `UnknownCall` when the pair is absent from
    /// the snapshot.
    pub fn lookup(&self, module_name: &String, call_name: &String) -> (r: Result<
        CallIndex,
        ComposeError,
    >)
        ensures
            match r {
                Ok(index) => resolve_spec(self@, module_name@, call_name@) == Some(index),
                Err(e) => {
                    &&& e == ComposeError::UnknownCall
                    &&& resolve_spec(self@, module_name@, call_name@) is None
                },
            },
    {
        let ghost md = self@;
        let mut i: usize = 0;
        proof {
            assert(md.skip(0) =~= md);
        }
        while i < self.entries.len()
            invariant
                i <= self.entries@.len(),
                md == self@,
                md.len() == self.entries@.len(),
                resolve_spec(md, module_name@, call_name@) == resolve_spec(
                    md.skip(i as int), module_name@, call_name@),
            decreases self.entries@.len() - i,
        {
            let entry = &self.entries[i];
            proof {
                assert(md.skip(i as int)[0] == md[i as int]);
                assert(md[i as int] == entry@);
            }
            if entry.module_name.eq(module_name) && entry.call_name.eq(call_name) {
                return Ok(entry.index);
            }
            proof {
                assert(md.skip(i as int).skip(1) =~= md.skip(i + 1));
            }
            i += 1;
        }
        proof {
            assert(md.skip(md.len() as int) =~= Seq::<EntryModel>::empty());
        }
        Err(ComposeError::UnknownCall)
    }
}

/// When resolution fails, no entry carries the pair.
pub proof fn lemma_resolve_none_no_match(md: Seq<EntryModel>, module: Seq<char>, call: Seq<char>)
    requires
        resolve_spec(md, module, call) is None,
    ensures
        forall|i: int| 0 <= i < md.len() ==> !(#[trigger] md[i].module == module
            && md[i].call == call),
    decreases md.len(),
{
    if md.len() > 0 {
        lemma_resolve_none_no_match(md.skip(1), module, call);
        assert forall|i: int| 0 <= i < md.len() implies !(#[trigger] md[i].module == module
            && md[i].call == call) by {
            if i > 0 {
                assert(md.skip(1)[i - 1] == md[i]);
            }
        }
    }
}

/// Every name pair present in a snapshot resolves, and in a well-formed
/// snapshot it resolves to the index of its own entry.
pub proof fn lemma_resolve_finds(md: Seq<EntryModel>, i: int)
    requires
        metadata_wf(md),
        0 <= i < md.len(),
    ensures
        resolve_spec(md, md[i].module, md[i].call) == Some(md[i].index),
    decreases md.len(),
{
    if i == 0 {
    } else {
        assert(!(md[0].module == md[i].module && md[0].call == md[i].call));
        assert(md.skip(1)[i - 1] == md[i]);
        assert(metadata_wf(md.skip(1))) by {
            assert forall|p: int, q: int| 0 <= p < q < md.skip(1).len() implies !(
                #[trigger] md.skip(1)[p].module == #[trigger] md.skip(1)[q].module
                && md.skip(1)[p].call == md.skip(1)[q].call) by {
                assert(md.skip(1)[p] == md[p + 1] && md.skip(1)[q] == md[q + 1]);
            }
        }
        lemma_resolve_finds(md.skip(1), i - 1);
    }
}

/// Resolution is deterministic: for one snapshot and one name pair there
/// is a single answer, so repeated lookups return the identical index.
pub proof fn lemma_resolve_deterministic(
    md: Seq<EntryModel>,
    module: Seq<char>,
    call: Seq<char>,
    r1: CallIndex,
    r2: CallIndex,
)
    requires
        resolve_spec(md, module, call) == Some(r1),
        resolve_spec(md, module, call) == Some(r2),
    ensures
        r1 == r2,
{
}

} // verus!
