use vstd::prelude::*;
use vstd::utf8::encode_utf8;
use crate::dumps::{plain_meta, Dump, DumpMeta, FeatureDump, FluxDump, SIDDump};
use crate::columns::{feature_columns, strs_view};
use crate::passband::Passband;

verus! {

/// The contents of one output file, to be written at `path`.
pub struct OutputFile {
    pub path: String,
    pub contents: Vec<u8>,
}

pub open spec fn outputs_view(v: Seq<OutputFile>) -> Seq<(Seq<char>, Seq<u8>)> {
    Seq::new(v.len(), |i: int| (v[i].path@, v[i].contents@))
}

/// A names file: each name in UTF-8, followed by a newline.
pub open spec fn names_file(names: Seq<Seq<char>>) -> Seq<u8>
    decreases names.len(),
{
    if names.len() == 0 {
        Seq::empty()
    } else {
        names_file(names.drop_last()) + encode_utf8(names.last()) + seq![10u8]
    }
}

/// The names files of the dumps that have one, in the order of the dumps.
pub open spec fn name_outputs(dumps: Seq<DumpMeta>) -> Seq<(Seq<char>, Seq<u8>)>
    decreases dumps.len(),
{
    if dumps.len() == 0 {
        Seq::empty()
    } else {
        let prev = name_outputs(dumps.drop_last());
        match dumps.last().name_path {
            Some(path) => prev.push((path, names_file(dumps.last().names))),
            None => prev,
        }
    }
}

/// The description files of the dumps that have one, in the order of the
/// dumps: the description in UTF-8.
pub open spec fn json_outputs(dumps: Seq<DumpMeta>) -> Seq<(Seq<char>, Seq<u8>)>
    decreases dumps.len(),
{
    if dumps.len() == 0 {
        Seq::empty()
    } else {
        let prev = json_outputs(dumps.drop_last());
        match dumps.last().json_path {
            Some(path) => prev.push((path, encode_utf8(dumps.last().json))),
            None => prev,
        }
    }
}

/// The number of bytes in all of `files`.
pub open spec fn total_size(files: Seq<(Seq<char>, Seq<u8>)>) -> nat
    decreases files.len(),
{
    if files.len() == 0 {
        0
    } else {
        total_size(files.drop_last()) + files.last().1.len()
    }
}

pub open spec fn metas(dumps: Seq<Dump>) -> Seq<DumpMeta> {
    dumps.map_values(|d: Dump| d@)
}

fn copy_passbands(passbands: &[Passband]) -> (res: Vec<Passband>)
    ensures
        res@ == passbands@,
{
    let mut res: Vec<Passband> = Vec::new();
    let mut i: usize = 0;
    while i < passbands.len()
        invariant
            i <= passbands@.len(),
            res@ == passbands@.subrange(0, i as int),
        decreases passbands@.len() - i,
    {
        res.push(passbands[i]);
        i = i + 1;
        assert(res@ =~= passbands@.subrange(0, i as int));
    }
    assert(passbands@.subrange(0, passbands@.len() as int) =~= passbands@);
    res
}

/// The bytes of a names file for `names`.
fn names_file_bytes(names: Vec<&str>) -> (res: Vec<u8>)
    ensures
        res@ == names_file(strs_view(names@)),
{
    let ghost all = strs_view(names@);
    let mut res: Vec<u8> = Vec::new();
    let mut i: usize = 0;
    while i < names.len()
        invariant
            i <= names@.len(),
            all == strs_view(names@),
            res@ == names_file(all.subrange(0, i as int)),
        decreases names@.len() - i,
    {
        let mut bytes = names[i].as_bytes_vec();
        res.append(&mut bytes);
        res.push(10u8);
        proof {
            let next = all.subrange(0, i + 1);
            assert(next.drop_last() =~= all.subrange(0, i as int));
            assert(next.last() == names@[i as int]@);
            assert(res@ =~= names_file(next));
        }
        i = i + 1;
    }
    assert(all.subrange(0, names@.len() as int) =~= all);
    res
}

/// Runs a set of dumps over the sources of a query: the source ids, light
/// curves interpolated in flux, light-curve features. Each dump writes one
/// record per source, in the same order for every dump, to its own value
/// file; the feature dump also writes its column names and a description.
/// It knows how many worker threads evaluate the dumps and where each source
/// is also cached.
pub struct Dumper<C> {
    passbands: Vec<Passband>,
    dumps: Vec<Dump>,
    n_threads: usize,
    write_caches: Vec<C>,
}

impl<C> Dumper<C> {
    pub closed spec fn spec_passbands(&self) -> Seq<Passband> {
        self.passbands@
    }

    pub closed spec fn spec_dumps(&self) -> Seq<Dump> {
        self.dumps@
    }

    pub closed spec fn spec_n_threads(&self) -> usize {
        self.n_threads
    }

    pub closed spec fn spec_write_caches(&self) -> Seq<C> {
        self.write_caches@
    }

    /// A dumper over `passbands`, with `n_threads` worker threads, no dump
    /// and no cache yet.
    pub fn new(passbands: &[Passband], n_threads: usize) -> (res: Self)
        ensures
            res.spec_passbands() == passbands@,
            res.spec_dumps() == Seq::<Dump>::empty(),
            res.spec_n_threads() == n_threads,
            res.spec_write_caches() == Seq::<C>::empty(),
    {
        Dumper {
            passbands: copy_passbands(passbands),
            dumps: Vec::new(),
            n_threads,
            write_caches: Vec::new(),
        }
    }

    /// Adds the dump of source ids, written to `sid_path`.
    pub fn set_sid_writer(&mut self, sid_path: String) -> (res: &mut Self)
        ensures
            res.spec_dumps().len() == old(self).spec_dumps().len() + 1,
            res.spec_dumps().drop_last() == old(self).spec_dumps(),
            res.spec_dumps().last() is Sid,
            res.spec_dumps().last()@ == plain_meta(sid_path@),
            res.spec_passbands() == old(self).spec_passbands(),
            res.spec_n_threads() == old(self).spec_n_threads(),
            res.spec_write_caches() == old(self).spec_write_caches(),
            *final(self) == *final(res),
    {
        self.dumps.push(Dump::Sid(SIDDump::new(sid_path)));
        proof {
            assert(self.dumps@.drop_last() =~= old(self).dumps@);
        }
        self
    }
    /// Adds the dump of light curves interpolated in flux over the dumper's
    /// passbands, written to `flux_path`. The interpolator itself stays with
    /// the caller, next to this dump.
    pub fn set_interpolator(&mut self, flux_path: String) -> (res: &mut Self)
        ensures
            res.spec_dumps().len() == old(self).spec_dumps().len() + 1,
            res.spec_dumps().drop_last() == old(self).spec_dumps(),
            res.spec_dumps().last() is Flux,
            res.spec_dumps().last()@ == plain_meta(flux_path@),
            res.spec_dumps().last()->Flux_0.spec_passbands() == old(self).spec_passbands(),
            res.spec_passbands() == old(self).spec_passbands(),
            res.spec_n_threads() == old(self).spec_n_threads(),
            res.spec_write_caches() == old(self).spec_write_caches(),
            *final(self) == *final(res),
    {
        let passbands = copy_passbands(self.passbands.as_slice());
        self.dumps.push(Dump::Flux(FluxDump::new(flux_path, passbands)));
        proof {
            assert(self.dumps@.drop_last() =~= old(self).dumps@);
        }
        self
    }

    /// Adds the dump of light-curve features over the dumper's passbands:
    /// values to `value_path`, column names to `name_path`, the description
    /// `json` of the two extractors to `json_path`. `magn_names` and
    /// `flux_names` are the features that the magnitude and the flux
    /// extractor compute; the extractors themselves stay with the caller,
    /// next to this dump.
    pub fn set_feature_extractor(
        &mut self,
        value_path: String,
        name_path: String,
        json_path: String,
        magn_names: &[&str],
        flux_names: &[&str],
        json: String,
    ) -> (res: &mut Self)
        ensures
            res.spec_dumps().len() == old(self).spec_dumps().len() + 1,
            res.spec_dumps().drop_last() == old(self).spec_dumps(),
            res.spec_dumps().last() is Feature,
            res.spec_dumps().last()@ == (DumpMeta {
                value_path: value_path@,
                name_path: Some(name_path@),
                json_path: Some(json_path@),
                names: feature_columns(
                    old(self).spec_passbands(),
                    strs_view(magn_names@),
                    strs_view(flux_names@),
                ),
                json: json@,
            }),
            res.spec_dumps().last()->Feature_0.spec_passbands() == old(self).spec_passbands(),
            res.spec_passbands() == old(self).spec_passbands(),
            res.spec_n_threads() == old(self).spec_n_threads(),
            res.spec_write_caches() == old(self).spec_write_caches(),
            *final(self) == *final(res),
    {
        let passbands = copy_passbands(self.passbands.as_slice());
        let dump = FeatureDump::new(
            value_path,
            name_path,
            json_path,
            magn_names,
            flux_names,
            json,
            passbands,
        );
        self.dumps.push(Dump::Feature(dump));
        proof {
            assert(self.dumps@.drop_last() =~= old(self).dumps@);
        }
        self
    }

    /// Adds a cache that every source is also written to.
    pub fn set_write_cache(&mut self, cache: C) -> (res: &mut Self)
        ensures
            res.spec_write_caches() == old(self).spec_write_caches().push(cache),
            res.spec_dumps() == old(self).spec_dumps(),
            res.spec_passbands() == old(self).spec_passbands(),
            res.spec_n_threads() == old(self).spec_n_threads(),
            *final(self) == *final(res),
    {
        self.write_caches.push(cache);
        self
    }

    /// The dumps, in the order they were added.
    pub fn dumps(&self) -> (res: &Vec<Dump>)
        ensures
            res@ == self.spec_dumps(),
    {
        &self.dumps
    }

    pub fn passbands(&self) -> (res: &Vec<Passband>)
        ensures
            res@ == self.spec_passbands(),
    {
        &self.passbands
    }

    pub fn n_threads(&self) -> (res: usize)
        ensures
            res == self.spec_n_threads(),
    {
        self.n_threads
    }

    pub fn write_caches(&self) -> (res: &Vec<C>)
        ensures
            res@ == self.spec_write_caches(),
    {
        &self.write_caches
    }

    /// Appends to `out` the names file of every dump that has one, in the
    /// order of the dumps, and returns the number of bytes in them.
    pub fn write_names(&self, out: &mut Vec<OutputFile>) -> (written: usize)
        requires
            total_size(name_outputs(metas(self.spec_dumps()))) <= usize::MAX,
        ensures
            outputs_view(final(out)@) == outputs_view(old(out)@) + name_outputs(
                metas(self.spec_dumps()),
            ),
            written == total_size(name_outputs(metas(self.spec_dumps()))),
    {
        let ghost all = metas(self.dumps@);
        let ghost start = outputs_view(out@);
        let mut written: usize = 0;
        let mut i: usize = 0;
        while i < self.dumps.len()
            invariant
                i <= self.dumps@.len(),
                all == metas(self.dumps@),
                total_size(name_outputs(all)) <= usize::MAX,
                outputs_view(out@) == start + name_outputs(all.subrange(0, i as int)),
                written == total_size(name_outputs(all.subrange(0, i as int))),
            decreases self.dumps@.len() - i,
        {
            let dump = &self.dumps[i];
            let ghost before = outputs_view(out@);
            proof {
                let next = all.subrange(0, i + 1);
                assert(next.drop_last() =~= all.subrange(0, i as int));
                assert(next.last() == dump@);
                lemma_total_size_prefix(all, i + 1);
            }
            match dump.get_name_path() {
                Some(path) => {
                    let contents = names_file_bytes(dump.get_names());
                    let size = contents.len();
                    proof {
                        let next = all.subrange(0, i + 1);
                        lemma_total_size_push(
                            name_outputs(all.subrange(0, i as int)),
                            (path@, names_file(dump@.names)),
                        );
                        assert(total_size(name_outputs(next)) == written + size);
                    }
                    written = written + size;
                    out.push(OutputFile { path: path.to_owned(), contents });
                    proof {
                        let next = all.subrange(0, i + 1);
                        assert(outputs_view(out@) =~= before.push((path@, names_file(dump@.names))));
                        assert(outputs_view(out@) =~= start + name_outputs(next));
                    }
                },
                None => {
                    proof {
                        let next = all.subrange(0, i + 1);
                        assert(name_outputs(next) == name_outputs(all.subrange(0, i as int)));
                    }
                },
            }
            i = i + 1;
        }
        assert(all.subrange(0, self.dumps@.len() as int) =~= all);
        written
    }

    /// Appends to `out` the description file of every dump that has one, in
    /// the order of the dumps, and returns the number of bytes in them.
    pub fn write_json(&self, out: &mut Vec<OutputFile>) -> (written: usize)
        requires
            total_size(json_outputs(metas(self.spec_dumps()))) <= usize::MAX,
        ensures
            outputs_view(final(out)@) == outputs_view(old(out)@) + json_outputs(
                metas(self.spec_dumps()),
            ),
            written == total_size(json_outputs(metas(self.spec_dumps()))),
    {
        let ghost all = metas(self.dumps@);
        let ghost start = outputs_view(out@);
        let mut written: usize = 0;
        let mut i: usize = 0;
        while i < self.dumps.len()
            invariant
                i <= self.dumps@.len(),
                all == metas(self.dumps@),
                total_size(json_outputs(all)) <= usize::MAX,
                outputs_view(out@) == start + json_outputs(all.subrange(0, i as int)),
                written == total_size(json_outputs(all.subrange(0, i as int))),
            decreases self.dumps@.len() - i,
        {
            let dump = &self.dumps[i];
            let ghost before = outputs_view(out@);
            proof {
                let next = all.subrange(0, i + 1);
                assert(next.drop_last() =~= all.subrange(0, i as int));
                assert(next.last() == dump@);
                lemma_total_size_prefix_json(all, i + 1);
            }
            match dump.get_json_path() {
                Some(path) => {
                    let contents = dump.get_json().as_bytes_vec();
                    let size = contents.len();
                    proof {
                        let next = all.subrange(0, i + 1);
                        lemma_total_size_push(
                            json_outputs(all.subrange(0, i as int)),
                            (path@, encode_utf8(dump@.json)),
                        );
                        assert(total_size(json_outputs(next)) == written + size);
                    }
                    written = written + size;
                    out.push(OutputFile { path: path.to_owned(), contents });
                    proof {
                        let next = all.subrange(0, i + 1);
                        assert(outputs_view(out@) =~= before.push((path@, encode_utf8(dump@.json))));
                        assert(outputs_view(out@) =~= start + json_outputs(next));
                    }
                },
                None => {
                    proof {
                        let next = all.subrange(0, i + 1);
                        assert(json_outputs(next) == json_outputs(all.subrange(0, i as int)));
                    }
                },
            }
            i = i + 1;
        }
        assert(all.subrange(0, self.dumps@.len() as int) =~= all);
        written
    }
}

proof fn lemma_total_size_push(files: Seq<(Seq<char>, Seq<u8>)>, f: (Seq<char>, Seq<u8>))
    ensures
        total_size(files.push(f)) == total_size(files) + f.1.len(),
{
    assert(files.push(f).drop_last() =~= files);
}

/// The names files of a prefix of the dumps are no larger than those of all.
proof fn lemma_total_size_prefix(all: Seq<DumpMeta>, k: int)
    requires
        0 <= k <= all.len(),
    ensures
        total_size(name_outputs(all.subrange(0, k))) <= total_size(name_outputs(all)),
    decreases all.len() - k,
{
    if k < all.len() {
        lemma_total_size_prefix(all, k + 1);
        let next = all.subrange(0, k + 1);
        assert(next.drop_last() =~= all.subrange(0, k));
        let prev = name_outputs(all.subrange(0, k));
        match next.last().name_path {
            Some(path) => {
                lemma_total_size_push(prev, (path, names_file(next.last().names)));
            },
            None => {},
        }
    } else {
        assert(all.subrange(0, k) =~= all);
    }
}

/// The description files of a prefix of the dumps are no larger than those
/// of all.
proof fn lemma_total_size_prefix_json(all: Seq<DumpMeta>, k: int)
    requires
        0 <= k <= all.len(),
    ensures
        total_size(json_outputs(all.subrange(0, k))) <= total_size(json_outputs(all)),
    decreases all.len() - k,
{
    if k < all.len() {
        lemma_total_size_prefix_json(all, k + 1);
        let next = all.subrange(0, k + 1);
        assert(next.drop_last() =~= all.subrange(0, k));
        let prev = json_outputs(all.subrange(0, k));
        match next.last().json_path {
            Some(path) => {
                lemma_total_size_push(prev, (path, encode_utf8(next.last().json)));
            },
            None => {},
        }
    } else {
        assert(all.subrange(0, k) =~= all);
    }
}

/// The byte count the names of a dump add up to: each name in UTF-8 plus
/// its newline.
pub open spec fn names_size(names: Seq<Seq<char>>) -> nat
    decreases names.len(),
{
    if names.len() == 0 {
        0
    } else {
        names_size(names.drop_last()) + encode_utf8(names.last()).len() + 1
    }
}

/// A names file holds, for each name, its UTF-8 bytes and a newline, so its
/// size is what the names add up to.
pub proof fn lemma_names_file_size(names: Seq<Seq<char>>)
    ensures
        names_file(names).len() == names_size(names),
    decreases names.len(),
{
    if names.len() > 0 {
        lemma_names_file_size(names.drop_last());
    }
}

/// The names file of one dump, if it has a names path.
pub open spec fn names_entry(d: DumpMeta) -> Option<(Seq<char>, Seq<u8>)> {
    match d.name_path {
        Some(path) => Some((path, names_file(d.names))),
        None => None,
    }
}

/// The description file of one dump, if it has a description path.
pub open spec fn json_entry(d: DumpMeta) -> Option<(Seq<char>, Seq<u8>)> {
    match d.json_path {
        Some(path) => Some((path, encode_utf8(d.json))),
        None => None,
    }
}

/// The names files are those of the dumps that have a names path, one per
/// such dump and in the order of the dumps, whichever dump comes first.
pub proof fn lemma_name_outputs_one_per_named_dump(dumps: Seq<DumpMeta>)
    ensures
        name_outputs(dumps) == dumps.filter_map(|d: DumpMeta| names_entry(d)),
    decreases dumps.len(),
{
    if dumps.len() > 0 {
        lemma_name_outputs_one_per_named_dump(dumps.drop_last());
        assert(name_outputs(dumps) =~= dumps.filter_map(|d: DumpMeta| names_entry(d)));
    }
}

/// Adding a dump adds its names file, if it has a names path, and nothing
/// else, to the names files of the dumps before it (none at all before the
/// first dump).
pub proof fn lemma_name_outputs_push(s: Seq<DumpMeta>, d: DumpMeta)
    ensures
        name_outputs(Seq::empty()) == Seq::<(Seq<char>, Seq<u8>)>::empty(),
        name_outputs(s.push(d)) =~= name_outputs(s) + match d.name_path {
            Some(path) => seq![(path, names_file(d.names))],
            None => Seq::empty(),
        },
{
    assert(s.push(d).drop_last() =~= s);
}

/// The description files are those of the dumps that have a description
/// path, one per such dump and in the order of the dumps, whichever dump
/// comes first.
pub proof fn lemma_json_outputs_one_per_described_dump(dumps: Seq<DumpMeta>)
    ensures
        json_outputs(dumps) == dumps.filter_map(|d: DumpMeta| json_entry(d)),
    decreases dumps.len(),
{
    if dumps.len() > 0 {
        lemma_json_outputs_one_per_described_dump(dumps.drop_last());
        assert(json_outputs(dumps) =~= dumps.filter_map(|d: DumpMeta| json_entry(d)));
    }
}

/// Adding a dump adds its description file, if it has a description path,
/// and nothing else, to the description files of the dumps before it (none
/// at all before the first dump).
pub proof fn lemma_json_outputs_push(s: Seq<DumpMeta>, d: DumpMeta)
    ensures
        json_outputs(Seq::empty()) == Seq::<(Seq<char>, Seq<u8>)>::empty(),
        json_outputs(s.push(d)) =~= json_outputs(s) + match d.json_path {
            Some(path) => seq![(path, encode_utf8(d.json))],
            None => Seq::empty(),
        },
{
    assert(s.push(d).drop_last() =~= s);
}

/// A names file is the lines of the names, in order: each name in UTF-8
/// followed by a newline, nothing left out or added.
pub proof fn lemma_names_file_is_lines(names: Seq<Seq<char>>)
    ensures
        names_file(names) =~= names.map_values(|n: Seq<char>| encode_utf8(n) + seq![10u8]).flatten(),
    decreases names.len(),
{
    if names.len() > 0 {
        let init = names.drop_last();
        lemma_names_file_is_lines(init);
        let lines = names.map_values(|n: Seq<char>| encode_utf8(n) + seq![10u8]);
        let init_lines = init.map_values(|n: Seq<char>| encode_utf8(n) + seq![10u8]);
        assert(lines =~= init_lines.push(encode_utf8(names.last()) + seq![10u8]));
        init_lines.lemma_flatten_push(encode_utf8(names.last()) + seq![10u8]);
    }
}

/// The size of a set of files is the number of bytes in all of them.
pub proof fn lemma_total_size_counts_bytes(files: Seq<(Seq<char>, Seq<u8>)>)
    ensures
        total_size(files) == files.map_values(|f: (Seq<char>, Seq<u8>)| f.1).flatten().len(),
    decreases files.len(),
{
    if files.len() > 0 {
        let init = files.drop_last();
        lemma_total_size_counts_bytes(init);
        let all = files.map_values(|f: (Seq<char>, Seq<u8>)| f.1);
        let before = init.map_values(|f: (Seq<char>, Seq<u8>)| f.1);
        assert(all =~= before.push(files.last().1));
        before.lemma_flatten_push(files.last().1);
    }
}

} // verus!
