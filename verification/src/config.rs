//! The desired stack configuration and the merge step that splices an
//! environment overlay into it.

use vstd::prelude::*;
use crate::envmap::EnvMap;
use crate::envmap::map_of;

verus! {

/// The declarative description of a stack's intended state: named fields
/// passed through to the remote service untouched, plus an optional
/// environment mapping that the merge step may extend.
#[derive(Debug, Clone, PartialEq)]
pub struct DesiredConfig {
    /// Opaque named fields, handed to the remote service as they stand.
    pub fields: Vec<(String, String)>,
    /// Environment variables, absent when the document declares none.
    pub environment: Option<EnvMap>,
}

impl DesiredConfig {
    /// Well-formed: the environment, when present, has unique names.
    pub open spec fn wf(self) -> bool {
        self.environment matches Some(e) ==> e.wf()
    }

    /// The environment as a mapping; an absent environment maps nothing.
    pub open spec fn env_map(self) -> Map<Seq<char>, Seq<char>> {
        match self.environment {
            Some(e) => e.as_map(),
            None => Map::empty(),
        }
    }
}

/// `m` with every binding of `entries` added in order, a later entry winning.
pub open spec fn insert_all(
    m: Map<Seq<char>, Seq<char>>,
    entries: Seq<(String, String)>,
) -> Map<Seq<char>, Seq<char>>
    decreases entries.len(),
{
    if entries.len() == 0 {
        m
    } else {
        insert_all(m, entries.drop_last()).insert(entries.last().0@, entries.last().1@)
    }
}

/// Adding a sequence of bindings one by one is the union that prefers them.
pub proof fn lemma_insert_all_union(m: Map<Seq<char>, Seq<char>>, entries: Seq<(String, String)>)
    ensures
        insert_all(m, entries) =~= m.union_prefer_right(map_of(entries)),
    decreases entries.len(),
{
    if entries.len() > 0 {
        lemma_insert_all_union(m, entries.drop_last());
    }
}

/// `r` is what merging `overlay` into `base` yields: an absent or empty
/// overlay leaves `base` untouched; otherwise the environment becomes the
/// union of base and overlay with the overlay winning on a shared name, and
/// every other field passes through unchanged.
pub open spec fn is_merged(base: DesiredConfig, overlay: Option<EnvMap>, r: DesiredConfig) -> bool {
    &&& r.fields == base.fields
    &&& (overlay is None ==> r == base)
    &&& (overlay matches Some(o) ==> {
        &&& o.as_map() == Map::<Seq<char>, Seq<char>>::empty() ==> r == base
        &&& (o.as_map() != Map::<Seq<char>, Seq<char>>::empty() && base.environment is None)
            ==> r.environment == Some(o)
        &&& (o.as_map() != Map::<Seq<char>, Seq<char>>::empty() && base.environment is Some)
            ==> r.environment is Some
        &&& r.env_map() == base.env_map().union_prefer_right(o.as_map())
    })
}

/// Combines a desired configuration with an optional overlay.
///
/// An absent or empty overlay leaves the configuration untouched. Otherwise
/// the result's environment maps every name the base or the overlay maps,
/// the overlay winning on a shared name; fields other than the environment
/// pass through unchanged.
pub fn merge(base: DesiredConfig, overlay: Option<EnvMap>) -> (r: DesiredConfig)
    requires
        base.wf(),
        overlay matches Some(o) ==> o.wf(),
    ensures
        r.wf(),
        is_merged(base, overlay, r),
{
    match overlay {
        None => base,
        Some(o) => {
            if o.entries.len() == 0 {
                proof {
                    assert(base.env_map() =~= base.env_map().union_prefer_right(o.as_map()));
                }
                return base;
            }
            proof {
                assert(o.as_map().contains_key(o.entries@.last().0@));
                assert(o.as_map() != Map::<Seq<char>, Seq<char>>::empty());
            }
            match base.environment {
                None => {
                    proof {
                        assert(o.as_map() =~= Map::<Seq<char>, Seq<char>>::empty()
                            .union_prefer_right(o.as_map()));
                    }
                    DesiredConfig { fields: base.fields, environment: Some(o) }
                },
                Some(b) => {
                    let mut merged = b;
                    let n = o.entries.len();
                    let mut i: usize = 0;
                    proof {
                        assert(o.entries@.subrange(0, 0) =~= Seq::<(String, String)>::empty());
                    }
                    while i < n
                        invariant
                            merged.wf(),
                            n == o.entries@.len(),
                            i <= n,
                            merged.as_map() == insert_all(
                                b.as_map(),
                                o.entries@.subrange(0, i as int),
                            ),
                        decreases n - i,
                    {
                        let k = o.entries[i].0.clone();
                        let v = o.entries[i].1.clone();
                        proof {
                            assert(o.entries@.subrange(0, i + 1).drop_last() =~= o.entries@
                                .subrange(0, i as int));
                            assert(o.entries@.subrange(0, i + 1).last() == o.entries@[i as int]);
                        }
                        merged.insert(k, v);
                        i = i + 1;
                    }
                    proof {
                        assert(o.entries@.subrange(0, n as int) =~= o.entries@);
                        lemma_insert_all_union(b.as_map(), o.entries@);
                    }
                    DesiredConfig { fields: base.fields, environment: Some(merged) }
                },
            }
        },
    }
}

} // verus!
