//! Provenance records: one [`RebuildInformation`] per written piece, and
//! one [`ShardResult`] per (shard, language) pair that received pieces.

use vstd::prelude::*;

use crate::types::{Location, LocationView, Metadata, MetadataView};

verus! {

/// Holds the same fields as [`Location`], adding [`Metadata`]: one
/// provenance entry, created at write time and immutable thereafter.
#[derive(Debug, Clone, PartialEq)]
pub struct RebuildInformation {
    pub shard_id: usize,
    pub record_id: String,
    pub line_start: usize,
    pub line_end: usize,
    pub loc_in_shard: usize,
    pub metadata: Metadata,
}

/// Mathematical model of a [`RebuildInformation`].
pub struct RebuildInfoView {
    pub shard_id: usize,
    pub record_id: Seq<char>,
    pub line_start: usize,
    pub line_end: usize,
    pub loc_in_shard: usize,
    pub metadata: MetadataView,
}

impl View for RebuildInformation {
    type V = RebuildInfoView;

    open spec fn view(&self) -> RebuildInfoView {
        RebuildInfoView {
            shard_id: self.shard_id,
            record_id: self.record_id@,
            line_start: self.line_start,
            line_end: self.line_end,
            loc_in_shard: self.loc_in_shard,
            metadata: self.metadata@,
        }
    }
}

impl RebuildInfoView {
    /// The location half of the entry.
    pub open spec fn location(&self) -> LocationView {
        LocationView {
            shard_id: self.shard_id,
            record_id: self.record_id,
            line_start: self.line_start,
            line_end: self.line_end,
            loc_in_shard: self.loc_in_shard,
        }
    }
}

impl RebuildInformation {
    /// Combines a location and the metadata of its piece into one entry.
    pub fn new(location: Location, metadata: Metadata) -> (r: Self)
        ensures
            r@.location() == location@,
            r@.metadata == metadata@,
    {
        RebuildInformation {
            shard_id: location.shard_id,
            record_id: location.record_id,
            line_start: location.line_start,
            line_end: location.line_end,
            loc_in_shard: location.loc_in_shard,
            metadata,
        }
    }

    /// Converts back into a ([`Location`], [`Metadata`]) pair, the exact
    /// values [`RebuildInformation::new`] was built from.
    pub fn into_raw_parts(self) -> (r: (Location, Metadata))
        ensures
            r.0@ == self@.location(),
            r.1@ == self@.metadata,
            r.1 == self.metadata,
    {
        (
            Location {
                shard_id: self.shard_id,
                record_id: self.record_id,
                line_start: self.line_start,
                line_end: self.line_end,
                loc_in_shard: self.loc_in_shard,
            },
            self.metadata,
        )
    }

    pub fn loc_in_shard(&self) -> (r: usize)
        ensures
            r == self@.loc_in_shard,
    {
        self.loc_in_shard
    }

    pub fn record_id(&self) -> (r: &String)
        ensures
            r@ == self@.record_id,
    {
        &self.record_id
    }

    pub fn line_start(&self) -> (r: usize)
        ensures
            r == self@.line_start,
    {
        self.line_start
    }

    pub fn line_end(&self) -> (r: usize)
        ensures
            r == self@.line_end,
    {
        self.line_end
    }

    pub fn metadata(&self) -> (r: &Metadata)
        ensures
            r@ == self@.metadata,
    {
        &self.metadata
    }

    pub fn shard_id(&self) -> (r: usize)
        ensures
            r == self@.shard_id,
    {
        self.shard_id
    }
}

/// All provenance entries of one (shard, language) pair, serialized
/// together as one journal record.
#[derive(Debug, Clone, PartialEq)]
pub struct ShardResult {
    pub shard_id: i64,
    pub rebuild_info: Vec<RebuildInformation>,
}

/// Mathematical model of a [`ShardResult`].
pub struct ShardResultView {
    pub shard_id: i64,
    pub rebuild_info: Seq<RebuildInfoView>,
}

/// Model of a sequence of provenance entries.
pub open spec fn rebuild_infos_view(s: Seq<RebuildInformation>) -> Seq<RebuildInfoView> {
    s.map_values(|ri: RebuildInformation| ri@)
}

/// The model of an entry sequence is the entrywise model.
pub proof fn lemma_rebuild_infos_view_index(s: Seq<RebuildInformation>, i: int)
    requires
        0 <= i < s.len(),
    ensures
        rebuild_infos_view(s).len() == s.len(),
        rebuild_infos_view(s)[i] == s[i]@,
{
}

/// Model of a sequence of shard results.
pub open spec fn shard_results_view(s: Seq<ShardResult>) -> Seq<ShardResultView> {
    s.map_values(|x: ShardResult| x@)
}

/// The model of a shard result sequence is the elementwise model.
pub proof fn lemma_shard_results_view_index(s: Seq<ShardResult>, i: int)
    requires
        0 <= i < s.len(),
    ensures
        shard_results_view(s).len() == s.len(),
        shard_results_view(s)[i] == s[i]@,
{
}

impl View for ShardResult {
    type V = ShardResultView;

    open spec fn view(&self) -> ShardResultView {
        ShardResultView {
            shard_id: self.shard_id,
            rebuild_info: rebuild_infos_view(self.rebuild_info@),
        }
    }
}

impl ShardResult {
    /// Merges parallel `locations` and `metadata` vectors into entries.
    ///
    /// Pairs are taken index by index; as in a zip, entries stop at the
    /// shorter of the two vectors.
    pub fn new(shard_id: i64, locations: Vec<Location>, metadata: Vec<Metadata>) -> (r: Self)
        ensures
            r.shard_id == shard_id,
            r.rebuild_info.len() == vstd::math::min(locations.len() as int, metadata.len() as int),
            forall|i: int| 0 <= i < r.rebuild_info.len() ==> {
                &&& #[trigger] r.rebuild_info[i]@.location() == locations[i]@
                &&& r.rebuild_info[i]@.metadata == metadata[i]@
            },
    {
        let mut locs = locations;
        let mut metas = metadata;
        let ghost locs0 = locs@;
        let ghost metas0 = metas@;
        let ghost n = vstd::math::min(locs0.len() as int, metas0.len() as int);
        let mut rebuild_info: Vec<RebuildInformation> = Vec::new();
        while locs.len() > 0 && metas.len() > 0
            invariant
                rebuild_info.len() <= n,
                n == vstd::math::min(locs0.len() as int, metas0.len() as int),
                locs@ == locs0.skip(rebuild_info.len() as int),
                metas@ == metas0.skip(rebuild_info.len() as int),
                forall|j: int| 0 <= j < rebuild_info.len() ==> {
                    &&& #[trigger] rebuild_info@[j]@.location() == locs0[j]@
                    &&& rebuild_info@[j]@.metadata == metas0[j]@
                },
            decreases locs.len(),
        {
            let ghost i = rebuild_info.len() as int;
            let loc = locs.remove(0);
            let meta = metas.remove(0);
            proof {
                assert(loc == locs0[i]);
                assert(meta == metas0[i]);
                assert(locs@ =~= locs0.skip(i + 1));
                assert(metas@ =~= metas0.skip(i + 1));
            }
            rebuild_info.push(RebuildInformation::new(loc, meta));
        }
        proof {
            let m = rebuild_infos_view(rebuild_info@);
            assert forall|j: int| 0 <= j < m.len() implies #[trigger] m[j].location() == locs0[j]@
                && m[j].metadata == metas0[j]@ by {
                lemma_rebuild_infos_view_index(rebuild_info@, j);
                assert(m[j] == rebuild_info@[j]@);
                assert(rebuild_info@[j]@.location() == locs0[j]@);
                assert(rebuild_info@[j]@.metadata == metas0[j]@);
            }
        }
        ShardResult { shard_id, rebuild_info }
    }

    /// Extracts the owned parts: (`shard_id`, entries).
    pub fn into_raw_parts(self) -> (r: (i64, Vec<RebuildInformation>))
        ensures
            r.0 == self.shard_id,
            r.1 == self.rebuild_info,
    {
        (self.shard_id, self.rebuild_info)
    }

    pub fn shard_id(&self) -> (r: i64)
        ensures
            r == self@.shard_id,
    {
        self.shard_id
    }

    pub fn rebuild_info(&self) -> (r: &Vec<RebuildInformation>)
        ensures
            *r == self.rebuild_info,
            rebuild_infos_view(r@) == self@.rebuild_info,
    {
        &self.rebuild_info
    }
}

} // verus!
