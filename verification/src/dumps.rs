use vstd::prelude::*;
use vstd::bytes::spec_u64_to_le_bytes;
use crate::columns::{feature_column_names, feature_columns, strings_view, strs_view};
use crate::columns::{column_name, lemma_feature_columns_layout};
use crate::encoding::{
    lemma_record_words_layout, lemma_words_layout, native_order, record_words, u32_native_bytes,
    u64_record, words_native_bytes,
};
use crate::passband::Passband;

verus! {

/// What a dump tells about its output: the file its values go to, the file
/// its column names go to (if any), the file its description goes to (if
/// any), its column names and its description.
pub struct DumpMeta {
    pub value_path: Seq<char>,
    pub name_path: Option<Seq<char>>,
    pub json_path: Option<Seq<char>>,
    pub names: Seq<Seq<char>>,
    pub json: Seq<char>,
}

pub open spec fn opt_str_view(o: Option<&str>) -> Option<Seq<char>> {
    match o {
        Some(s) => Some(s@),
        None => None,
    }
}

/// The metadata of a dump that writes only values: no column names, no
/// description.
pub open spec fn plain_meta(value_path: Seq<char>) -> DumpMeta {
    DumpMeta {
        value_path,
        name_path: None,
        json_path: None,
        names: Seq::empty(),
        json: Seq::empty(),
    }
}

/// Copies the names as string slices borrowed from `names`.
fn borrow_names(names: &Vec<String>) -> (res: Vec<&str>)
    ensures
        strs_view(res@) == strings_view(names@),
{
    let mut res: Vec<&str> = Vec::new();
    let mut i: usize = 0;
    while i < names.len()
        invariant
            i <= names@.len(),
            strs_view(res@) == strings_view(names@).subrange(0, i as int),
        decreases names@.len() - i,
    {
        let ghost before = res@;
        let name: &str = names[i].as_str();
        res.push(name);
        proof {
            assert(name@ == strings_view(names@)[i as int]);
            assert(strs_view(res@) =~= strs_view(before).push(name@));
            assert(strs_view(res@) =~= strings_view(names@).subrange(0, i + 1));
        }
        i = i + 1;
    }
    assert(strings_view(names@).subrange(0, names@.len() as int) =~= strings_view(names@));
    res
}

/// The dump of source ids: each source's id, as a `u64` in machine byte
/// order.
#[derive(Clone)]
pub struct SIDDump {
    path: String,
}

impl View for SIDDump {
    type V = DumpMeta;

    closed spec fn view(&self) -> DumpMeta {
        plain_meta(self.path@)
    }
}

impl SIDDump {
    pub fn new(path: String) -> (res: SIDDump)
        ensures
            res@ == plain_meta(path@),
    {
        SIDDump { path }
    }

    /// The record of the source with id `sid`.
    pub fn eval(&self, sid: u64) -> (res: Vec<u8>)
        ensures
            res@ == native_order(spec_u64_to_le_bytes(sid)),
            res@.len() == 8,
    {
        u64_record(sid)
    }

    pub fn get_names(&self) -> (res: Vec<&str>)
        ensures
            strs_view(res@) == self@.names,
    {
        let res: Vec<&str> = Vec::new();
        assert(strs_view(res@) =~= Seq::<Seq<char>>::empty());
        res
    }

    pub fn get_json(&self) -> (res: &str)
        ensures
            res@ == self@.json,
    {
        proof {
            reveal_strlit("");
        }
        ""
    }

    pub fn get_value_path(&self) -> (res: &str)
        ensures
            res@ == self@.value_path,
    {
        self.path.as_str()
    }

    pub fn get_name_path(&self) -> (res: Option<&str>)
        ensures
            opt_str_view(res) == self@.name_path,
    {
        None
    }

    pub fn get_json_path(&self) -> (res: Option<&str>)
        ensures
            opt_str_view(res) == self@.json_path,
    {
        None
    }
}

/// The dump of light curves interpolated to a fixed grid of times, in flux,
/// one block of values per passband. Only its metadata lives here; the
/// values come from the interpolator.
#[derive(Clone)]
pub struct FluxDump {
    path: String,
    passbands: Vec<Passband>,
}

impl View for FluxDump {
    type V = DumpMeta;

    closed spec fn view(&self) -> DumpMeta {
        plain_meta(self.path@)
    }
}

impl FluxDump {
    pub closed spec fn spec_passbands(&self) -> Seq<Passband> {
        self.passbands@
    }

    pub fn new(path: String, passbands: Vec<Passband>) -> (res: FluxDump)
        ensures
            res@ == plain_meta(path@),
            res.spec_passbands() == passbands@,
    {
        FluxDump { path, passbands }
    }

    /// The passbands whose light curves the dump interpolates, in order.
    pub fn passbands(&self) -> (res: &Vec<Passband>)
        ensures
            res@ == self.spec_passbands(),
    {
        &self.passbands
    }

    pub fn get_names(&self) -> (res: Vec<&str>)
        ensures
            strs_view(res@) == self@.names,
    {
        let res: Vec<&str> = Vec::new();
        assert(strs_view(res@) =~= Seq::<Seq<char>>::empty());
        res
    }

    pub fn get_json(&self) -> (res: &str)
        ensures
            res@ == self@.json,
    {
        proof {
            reveal_strlit("");
        }
        ""
    }

    pub fn get_value_path(&self) -> (res: &str)
        ensures
            res@ == self@.value_path,
    {
        self.path.as_str()
    }

    pub fn get_name_path(&self) -> (res: Option<&str>)
        ensures
            opt_str_view(res) == self@.name_path,
    {
        None
    }

    pub fn get_json_path(&self) -> (res: Option<&str>)
        ensures
            opt_str_view(res) == self@.json_path,
    {
        None
    }
}

/// The dump of light-curve features, computed on magnitudes and on fluxes,
/// in each passband. It writes its values, its column names and a
/// description of both feature extractors. Only its metadata lives here; the
/// values come from the feature extractors.
#[derive(Clone)]
pub struct FeatureDump {
    value_path: String,
    name_path: String,
    json_path: String,
    passbands: Vec<Passband>,
    names: Vec<String>,
    json: String,
}

impl View for FeatureDump {
    type V = DumpMeta;

    closed spec fn view(&self) -> DumpMeta {
        DumpMeta {
            value_path: self.value_path@,
            name_path: Some(self.name_path@),
            json_path: Some(self.json_path@),
            names: strings_view(self.names@),
            json: self.json@,
        }
    }
}

impl FeatureDump {
    pub closed spec fn spec_passbands(&self) -> Seq<Passband> {
        self.passbands@
    }

    /// A feature dump over `passbands` whose magnitude extractor computes the
    /// features `magn_names` and whose flux extractor computes `flux_names`;
    /// `json` describes the two extractors. Its columns are named by
    /// `feature_columns`.
    pub fn new(
        value_path: String,
        name_path: String,
        json_path: String,
        magn_names: &[&str],
        flux_names: &[&str],
        json: String,
        passbands: Vec<Passband>,
    ) -> (res: FeatureDump)
        ensures
            res@ == (DumpMeta {
                value_path: value_path@,
                name_path: Some(name_path@),
                json_path: Some(json_path@),
                names: feature_columns(passbands@, strs_view(magn_names@), strs_view(flux_names@)),
                json: json@,
            }),
            res.spec_passbands() == passbands@,
    {
        let names = feature_column_names(passbands.as_slice(), magn_names, flux_names);
        FeatureDump { value_path, name_path, json_path, passbands, names, json }
    }

    /// The passbands whose light curves the dump describes, in order.
    pub fn passbands(&self) -> (res: &Vec<Passband>)
        ensures
            res@ == self.spec_passbands(),
    {
        &self.passbands
    }

    pub fn get_names(&self) -> (res: Vec<&str>)
        ensures
            strs_view(res@) == self@.names,
    {
        borrow_names(&self.names)
    }

    pub fn get_json(&self) -> (res: &str)
        ensures
            res@ == self@.json,
    {
        self.json.as_str()
    }

    pub fn get_value_path(&self) -> (res: &str)
        ensures
            res@ == self@.value_path,
    {
        self.value_path.as_str()
    }

    pub fn get_name_path(&self) -> (res: Option<&str>)
        ensures
            opt_str_view(res) == self@.name_path,
    {
        Some(self.name_path.as_str())
    }

    pub fn get_json_path(&self) -> (res: Option<&str>)
        ensures
            opt_str_view(res) == self@.json_path,
    {
        Some(self.json_path.as_str())
    }
}

/// Any of the dumps a `Dumper` runs.
#[derive(Clone)]
pub enum Dump {
    Sid(SIDDump),
    Flux(FluxDump),
    Feature(FeatureDump),
}

impl View for Dump {
    type V = DumpMeta;

    open spec fn view(&self) -> DumpMeta {
        match self {
            Dump::Sid(d) => d@,
            Dump::Flux(d) => d@,
            Dump::Feature(d) => d@,
        }
    }
}

impl Dump {
    pub fn get_names(&self) -> (res: Vec<&str>)
        ensures
            strs_view(res@) == self@.names,
    {
        match self {
            Dump::Sid(d) => d.get_names(),
            Dump::Flux(d) => d.get_names(),
            Dump::Feature(d) => d.get_names(),
        }
    }

    pub fn get_json(&self) -> (res: &str)
        ensures
            res@ == self@.json,
    {
        match self {
            Dump::Sid(d) => d.get_json(),
            Dump::Flux(d) => d.get_json(),
            Dump::Feature(d) => d.get_json(),
        }
    }

    pub fn get_value_path(&self) -> (res: &str)
        ensures
            res@ == self@.value_path,
    {
        match self {
            Dump::Sid(d) => d.get_value_path(),
            Dump::Flux(d) => d.get_value_path(),
            Dump::Feature(d) => d.get_value_path(),
        }
    }

    pub fn get_name_path(&self) -> (res: Option<&str>)
        ensures
            opt_str_view(res) == self@.name_path,
    {
        match self {
            Dump::Sid(d) => d.get_name_path(),
            Dump::Flux(d) => d.get_name_path(),
            Dump::Feature(d) => d.get_name_path(),
        }
    }

    pub fn get_json_path(&self) -> (res: Option<&str>)
        ensures
            opt_str_view(res) == self@.json_path,
    {
        match self {
            Dump::Sid(d) => d.get_json_path(),
            Dump::Flux(d) => d.get_json_path(),
            Dump::Feature(d) => d.get_json_path(),
        }
    }
}

/// A feature record matches the feature columns value for value: when every
/// passband brings one value per magnitude feature and one per flux feature,
/// the record holds one value per column, and the 4 bytes of value `k` are
/// the value of the feature that column `k` names, in that column's
/// passband and brightness.
pub proof fn lemma_feature_record_matches_columns(
    bands: Seq<Passband>,
    magn: Seq<Seq<char>>,
    flux: Seq<Seq<char>>,
    per_band: Seq<(Seq<u32>, Seq<u32>)>,
)
    requires
        per_band.len() == bands.len(),
        forall|b: int|
            0 <= b < per_band.len() ==> (#[trigger] per_band[b]).0.len() == magn.len()
                && per_band[b].1.len() == flux.len(),
    ensures
        record_words(per_band).len() == feature_columns(bands, magn, flux).len(),
        words_native_bytes(record_words(per_band)).len() == 4 * feature_columns(
            bands,
            magn,
            flux,
        ).len(),
        forall|b: int, j: int|
            #![trigger per_band[b], magn[j]]
            0 <= b < bands.len() && 0 <= j < magn.len() ==> {
                let k = b * (magn.len() + flux.len()) + j;
                &&& feature_columns(bands, magn, flux)[k] == column_name(
                    magn[j],
                    "magn"@,
                    bands[b].spec_name(),
                )
                &&& words_native_bytes(record_words(per_band)).subrange(4 * k, 4 * k + 4)
                    =~= u32_native_bytes(per_band[b].0[j])
            },
        forall|b: int, j: int|
            #![trigger per_band[b], flux[j]]
            0 <= b < bands.len() && 0 <= j < flux.len() ==> {
                let k = b * (magn.len() + flux.len()) + magn.len() + j;
                &&& feature_columns(bands, magn, flux)[k] == column_name(
                    flux[j],
                    "flux"@,
                    bands[b].spec_name(),
                )
                &&& words_native_bytes(record_words(per_band)).subrange(4 * k, 4 * k + 4)
                    =~= u32_native_bytes(per_band[b].1[j])
            },
{
    let m = magn.len();
    let f = flux.len();
    let w = m + f;
    lemma_feature_columns_layout(bands, magn, flux);
    lemma_record_words_layout(per_band, m, f);
    let words = record_words(per_band);
    lemma_words_layout(words);
    assert forall|b: int, j: int|
        #![trigger per_band[b], magn[j]]
        0 <= b < bands.len() && 0 <= j < magn.len() implies {
        let k = b * (magn.len() + flux.len()) + j;
        &&& feature_columns(bands, magn, flux)[k] == column_name(magn[j], "magn"@, bands[b].spec_name())
        &&& words_native_bytes(record_words(per_band)).subrange(4 * k, 4 * k + 4)
            =~= u32_native_bytes(per_band[b].0[j])
    } by {
        let k = b * w + j;
        assert(b * w + w <= bands.len() * w) by (nonlinear_arith)
            requires
                b < bands.len(),
                w >= 0,
        ;
        assert(0 <= b * w) by (nonlinear_arith)
            requires
                b >= 0,
                w >= 0,
        ;
        assert(words[k] == per_band[b].0[j]);
        assert(feature_columns(bands, magn, flux)[k] == column_name(magn[j], "magn"@, bands[b].spec_name()));
        assert(words_native_bytes(words).subrange(4 * k, 4 * k + 4) == u32_native_bytes(words[k]));
    }
    assert forall|b: int, j: int|
        #![trigger per_band[b], flux[j]]
        0 <= b < bands.len() && 0 <= j < flux.len() implies {
        let k = b * (magn.len() + flux.len()) + magn.len() + j;
        &&& feature_columns(bands, magn, flux)[k] == column_name(flux[j], "flux"@, bands[b].spec_name())
        &&& words_native_bytes(record_words(per_band)).subrange(4 * k, 4 * k + 4)
            =~= u32_native_bytes(per_band[b].1[j])
    } by {
        let k = b * w + m + j;
        assert(b * w + w <= bands.len() * w) by (nonlinear_arith)
            requires
                b < bands.len(),
                w >= 0,
        ;
        assert(0 <= b * w) by (nonlinear_arith)
            requires
                b >= 0,
                w >= 0,
        ;
        assert(words[k] == per_band[b].1[j]);
        assert(feature_columns(bands, magn, flux)[k] == column_name(flux[j], "flux"@, bands[b].spec_name()));
        assert(words_native_bytes(words).subrange(4 * k, 4 * k + 4) == u32_native_bytes(words[k]));
    }
}

} // verus!
