//! In-memory index of the layer files a timeline keeps on remote storage:
//! relative remote paths, per-layer metadata that survives version upgrades
//! by merging, and the index-part record that lists the layer files with
//! their metadata. Paths are modeled as their textual form with `/` as the
//! separator.

use vstd::prelude::*;
use vstd::string::StrSliceExecFns;
use vstd::string::StringExecFns;
use crate::ext::{push_char, str_eq};

verus! {

/// A path text with one trailing separator removed: two texts name the same
/// path when they agree up to that.
pub open spec fn trim_sep(s: Seq<char>) -> Seq<char> {
    if s.len() > 0 && s.last() == '/' { s.drop_last() } else { s }
}

/// Path equality modulo one trailing separator.
pub open spec fn same_path(a: Seq<char>, b: Seq<char>) -> bool {
    trim_sep(a) == trim_sep(b)
}

/// What stripping a base from a full path yields: the empty remainder when
/// the two are equal, everything when the base is empty, the remainder
/// behind the base (and behind the separator, when the base does not end in
/// one) when the base is a whole-component prefix, nothing otherwise.
pub open spec fn strip_prefix_chars(base: Seq<char>, full: Seq<char>) -> Option<Seq<char>> {
    if full == base {
        Option::Some(Seq::<char>::empty())
    } else if base.len() == 0 {
        Option::Some(full)
    } else if full.len() > base.len() && full.subrange(0, base.len() as int) == base && base.last() == '/' {
        Option::Some(full.subrange(base.len() as int, full.len() as int))
    } else if full.len() > base.len() && full.subrange(0, base.len() as int) == base && full[base.len() as int] == '/' {
        Option::Some(full.subrange(base.len() as int + 1, full.len() as int))
    } else {
        Option::None
    }
}

/// What joining a relative path onto a base yields: an empty relative path
/// adds nothing, and the separator is added unless the base already ends in
/// one or is empty.
pub open spec fn join_chars(base: Seq<char>, rel: Seq<char>) -> Seq<char> {
    if rel.len() == 0 {
        base
    } else if base.len() == 0 {
        rel
    } else if base.last() == '/' {
        base + rel
    } else {
        base + seq![ '/' ] + rel
    }
}

/// Stripping and joining are inverse: whatever strip takes off a full path,
/// joining it back onto the base names the same path again (equal up to one
/// trailing separator, which distinguishes no path).
pub proof fn lemma_strip_join_round_trip(base: Seq<char>, full: Seq<char>, r: Seq<char>)
    requires
        strip_prefix_chars(base, full) == Option::Some(r),
    ensures
        same_path(join_chars(base, r), full),
{
    if full == base {
        assert(r =~= Seq::<char>::empty());
    } else if base.len() == 0 {
        assert(join_chars(base, r) == full);
    } else if full.len() > base.len() && full.subrange(0, base.len() as int) == base && base.last() == '/' {
        assert(join_chars(base, r) =~= full);
    } else {
        // The base does not end in the separator; full carries one at the
        // base's length, and the remainder follows it.
        assert(r == full.subrange(base.len() as int + 1, full.len() as int));
        if r.len() == 0 {
            // full is exactly the base plus a trailing separator.
            assert(full.last() == '/');
            assert(trim_sep(full) =~= base);
        } else {
            assert(join_chars(base, r) =~= full);
        }
    }
}

/// A full path was not relative to the base it was to be stripped of.
#[derive(Debug)]
pub struct PathStripError {
    pub base: String,
    pub full: String,
}

/// Path on the remote storage, relative to some inner prefix. The prefix is
/// an implementation detail that lets local paths be represented as remote
/// ones with the local storage prefix stripped away.
#[derive(Clone, Debug, PartialEq, Eq, Hash)]
pub struct RemotePath(pub String);

impl RemotePath {
    pub fn new(relative_path: &str) -> (r: RemotePath)
        ensures
            r.0@ == relative_path@,
    {
        RemotePath(relative_path.to_owned())
    }

    /// Strip the base from a full path; the full path must lie under the
    /// base (or equal it), else the pair comes back as the error. Joining
    /// the result back onto the base names the full path again (the
    /// round-trip law `lemma_strip_join_round_trip`).
    pub fn strip_base_path(base_path: &str, full_path: &str) -> (r: Result<RemotePath, PathStripError>)
        ensures
            (r is Ok) <==> (strip_prefix_chars(base_path@, full_path@) is Some),
            r matches Result::Ok(p) ==> strip_prefix_chars(base_path@, full_path@) == Option::Some(p.0@),
            r matches Result::Err(e) ==> e.base@ == base_path@ && e.full@ == full_path@,
    {
        let nb: usize = base_path.unicode_len();
        let nf: usize = full_path.unicode_len();
        if str_eq(full_path, base_path) {
            return Result::Ok(RemotePath(String::new()));
        }
        if nb == 0 {
            return Result::Ok(RemotePath(full_path.to_owned()));
        }
        if nf <= nb {
            return Result::Err(PathStripError { base: base_path.to_owned(), full: full_path.to_owned() });
        }
        let mut i: usize = 0;
        while i < nb
            invariant
                i <= nb,
                nb == base_path@.len(),
                nf == full_path@.len(),
                nb < nf,
                forall|k: int| 0 <= k < i ==> full_path@[k] == base_path@[k],
            decreases nb - i,
        {
            if full_path.get_char(i) != base_path.get_char(i) {
                proof {
                    if full_path@.subrange(0, nb as int) == base_path@ {
                        assert(full_path@.subrange(0, nb as int)[i as int] == base_path@[i as int]);
                    }
                }
                return Result::Err(PathStripError { base: base_path.to_owned(), full: full_path.to_owned() });
            }
            i = i + 1;
        }
        proof {
            assert(full_path@.subrange(0, nb as int) =~= base_path@);
        }
        if base_path.get_char(nb - 1) == '/' {
            let rest: &str = full_path.substring_char(nb, nf);
            Result::Ok(RemotePath(rest.to_owned()))
        } else if full_path.get_char(nb) == '/' {
            let rest: &str = full_path.substring_char(nb + 1, nf);
            Result::Ok(RemotePath(rest.to_owned()))
        } else {
            Result::Err(PathStripError { base: base_path.to_owned(), full: full_path.to_owned() })
        }
    }

    /// The path under a local base directory: the inverse of the strip.
    pub fn to_local_path(&self, base_path: &str) -> (r: String)
        ensures
            r@ == join_chars(base_path@, self.0@),
    {
        if self.0.as_str().unicode_len() == 0 {
            return base_path.to_owned();
        }
        let nb: usize = base_path.unicode_len();
        if nb == 0 {
            return self.0.clone();
        }
        let mut out: String = base_path.to_owned();
        if base_path.get_char(nb - 1) != '/' {
            push_char(&mut out, '/');
        }
        out.append(self.0.as_str());
        proof {
            assert(out@ =~= join_chars(base_path@, self.0@));
        }
        out
    }
}

/// The name of one layer file, in its textual form.
#[derive(Clone, Debug, PartialEq, Eq, Hash)]
pub struct LayerFileName(pub String);

/// A log sequence number.
#[derive(Clone, Copy, Debug, PartialEq, Eq, Structural)]
pub struct Lsn(pub u64);

/// Metadata gathered for each of the layer files. The field is optional
/// because index parts written by other versions may carry less or more
/// metadata.
#[derive(Clone, Debug, PartialEq, Eq)]
pub struct LayerFileMetadata {
    pub file_size: Option<u64>,
}

impl LayerFileMetadata {
    pub fn new(file_size: u64) -> (r: LayerFileMetadata)
        ensures
            r.file_size == Option::Some(file_size),
    {
        LayerFileMetadata { file_size: Option::Some(file_size) }
    }

    /// The metadata of a remote layer whose entry was missing from the
    /// index part file.
    pub fn missing() -> (r: LayerFileMetadata)
        ensures
            r.file_size is None,
    {
        LayerFileMetadata { file_size: Option::None }
    }

    pub fn file_size(&self) -> (r: Option<u64>)
        ensures
            r == self.file_size,
    {
        self.file_size
    }

    /// Fill the holes a version upgrade left: the other value wins wherever
    /// it is present, and what it lacks stays as it was.
    pub fn merge(&mut self, other: &LayerFileMetadata)
        ensures
            final(self).file_size == (if other.file_size is Some { other.file_size } else { old(self).file_size }),
    {
        if let Option::Some(size) = other.file_size {
            self.file_size = Option::Some(size);
        }
    }

    pub fn from_index(other: &IndexLayerMetadata) -> (r: LayerFileMetadata)
        ensures
            r.file_size == other.file_size,
    {
        LayerFileMetadata { file_size: other.file_size }
    }
}

/// Serialized form of the per-layer metadata.
#[derive(Clone, Debug, PartialEq, Eq)]
pub struct IndexLayerMetadata {
    pub file_size: Option<u64>,
}

impl IndexLayerMetadata {
    pub fn from_metadata(other: &LayerFileMetadata) -> (r: IndexLayerMetadata)
        ensures
            r.file_size == other.file_size,
    {
        IndexLayerMetadata { file_size: other.file_size }
    }
}

/// The names of a (name, metadata) pair list, in order.
pub open spec fn layer_names(input: Seq<(LayerFileName, LayerFileMetadata)>) -> Seq<LayerFileName> {
    Seq::new(input.len(), |i: int| input[i].0)
}

/// The serialized metadata of a (name, metadata) pair list, in order.
pub open spec fn layer_index_metadata(input: Seq<(LayerFileName, LayerFileMetadata)>) -> Seq<(LayerFileName, IndexLayerMetadata)> {
    Seq::new(input.len(), |i: int| (input[i].0, IndexLayerMetadata { file_size: input[i].1.file_size }))
}

/// Split (name, metadata) pairs into the plain name list and the
/// serialized-metadata list, appended in input order.
pub fn separate_paths_and_metadata(
    input: &Vec<(LayerFileName, LayerFileMetadata)>,
    output: &mut Vec<LayerFileName>,
    layer_metadata: &mut Vec<(LayerFileName, IndexLayerMetadata)>,
)
    ensures
        final(output)@ == old(output)@ + layer_names(input@),
        final(layer_metadata)@ == old(layer_metadata)@ + layer_index_metadata(input@),
{
    let n: usize = input.len();
    let mut i: usize = 0;
    proof {
        assert(output@ =~= old(output)@ + layer_names(input@.take(0)));
        assert(layer_metadata@ =~= old(layer_metadata)@ + layer_index_metadata(input@.take(0)));
    }
    while i < n
        invariant
            i <= n,
            n == input@.len(),
            output@ == old(output)@ + layer_names(input@.take(i as int)),
            layer_metadata@ == old(layer_metadata)@ + layer_index_metadata(input@.take(i as int)),
        decreases n - i,
    {
        let name: LayerFileName = LayerFileName(input[i].0.0.clone());
        let metadata = IndexLayerMetadata::from_metadata(&input[i].1);
        layer_metadata.push((LayerFileName(name.0.clone()), metadata));
        output.push(name);
        proof {
            assert(output@ =~= old(output)@ + layer_names(input@.take(i + 1)));
            assert(layer_metadata@ =~= old(layer_metadata)@ + layer_index_metadata(input@.take(i + 1)));
        }
        i = i + 1;
    }
    proof {
        assert(input@.take(n as int) =~= input@);
        assert(output@ =~= old(output)@ + layer_names(input@));
        assert(layer_metadata@ =~= old(layer_metadata)@ + layer_index_metadata(input@));
    }
}

/// No two pairs carry the same layer name (the caller's map has one entry
/// per name).
pub open spec fn distinct_layer_names(input: Seq<(LayerFileName, LayerFileMetadata)>) -> bool {
    forall|i: int, j: int| 0 <= i < j < input.len() ==> (#[trigger] input[i]).0.0@ != (#[trigger] input[j]).0.0@
}

/// In-memory form of one index-part record: the layer files present
/// remotely, their metadata, and the timeline metadata blob.
#[derive(Clone, Debug, PartialEq, Eq)]
pub struct IndexPart {
    pub version: usize,
    pub timeline_layers: Vec<LayerFileName>,
    pub missing_layers: Option<Vec<LayerFileName>>,
    pub layer_metadata: Vec<(LayerFileName, IndexLayerMetadata)>,
    pub disk_consistent_lsn: Lsn,
    pub metadata_bytes: Vec<u8>,
}

/// The version written by this code; informative only.
pub const LATEST_VERSION: usize = 1;

impl IndexPart {
    /// The layer list is a set and the metadata list a map: no name twice.
    pub open spec fn wf(self) -> bool {
        &&& forall|i: int, j: int| 0 <= i < j < self.timeline_layers@.len()
            ==> (#[trigger] self.timeline_layers@[i]).0@ != (#[trigger] self.timeline_layers@[j]).0@
        &&& forall|i: int, j: int| 0 <= i < j < self.layer_metadata@.len()
            ==> (#[trigger] self.layer_metadata@[i]).0.0@ != (#[trigger] self.layer_metadata@[j]).0.0@
    }

    /// Build an index part from the layers and their metadata: one entry per
    /// layer name, as the caller's map guarantees.
    pub fn new(
        layers_and_metadata: Vec<(LayerFileName, LayerFileMetadata)>,
        disk_consistent_lsn: Lsn,
        metadata_bytes: Vec<u8>,
    ) -> (r: IndexPart)
        requires
            distinct_layer_names(layers_and_metadata@),
        ensures
            r.wf(),
            r.version == LATEST_VERSION,
            r.missing_layers matches Option::Some(m) && m@.len() == 0,
            r.disk_consistent_lsn == disk_consistent_lsn,
            r.metadata_bytes@ == metadata_bytes@,
            r.timeline_layers@ == layer_names(layers_and_metadata@),
            r.layer_metadata@ == layer_index_metadata(layers_and_metadata@),
    {
        let mut timeline_layers: Vec<LayerFileName> = Vec::new();
        let mut layer_metadata: Vec<(LayerFileName, IndexLayerMetadata)> = Vec::new();
        separate_paths_and_metadata(&layers_and_metadata, &mut timeline_layers, &mut layer_metadata);
        proof {
            assert(timeline_layers@ =~= layer_names(layers_and_metadata@));
            assert(layer_metadata@ =~= layer_index_metadata(layers_and_metadata@));
        }
        IndexPart {
            version: LATEST_VERSION,
            timeline_layers,
            missing_layers: Option::Some(Vec::new()),
            layer_metadata,
            disk_consistent_lsn,
            metadata_bytes,
        }
    }
}

} // verus!
