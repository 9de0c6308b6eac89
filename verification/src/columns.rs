use vstd::prelude::*;
use crate::passband::Passband;

verus! {

/// The name of the column that holds feature `name`, computed on brightness
/// of `kind` (magnitudes or fluxes), in passband `band`.
pub open spec fn column_name(name: Seq<char>, kind: Seq<char>, band: Seq<char>) -> Seq<char> {
    name + "_"@ + kind + "_"@ + band
}

/// The columns of one passband: the magnitude features, then the flux features.
pub open spec fn band_columns(magn: Seq<Seq<char>>, flux: Seq<Seq<char>>, band: Seq<char>) -> Seq<
    Seq<char>,
> {
    magn.map_values(|n: Seq<char>| column_name(n, "magn"@, band)) + flux.map_values(
        |n: Seq<char>| column_name(n, "flux"@, band),
    )
}

/// The columns of a feature dump: the columns of each passband, in the order
/// of the passbands.
pub open spec fn feature_columns(bands: Seq<Passband>, magn: Seq<Seq<char>>, flux: Seq<Seq<char>>) -> Seq<
    Seq<char>,
>
    decreases bands.len(),
{
    if bands.len() == 0 {
        Seq::empty()
    } else {
        feature_columns(bands.drop_last(), magn, flux) + band_columns(
            magn,
            flux,
            bands.last().spec_name(),
        )
    }
}

pub open spec fn strs_view(v: Seq<&str>) -> Seq<Seq<char>> {
    v.map_values(|s: &str| s@)
}

pub open spec fn strings_view(v: Seq<String>) -> Seq<Seq<char>> {
    v.map_values(|s: String| s@)
}

/// Appends the column name of each feature of `names`, computed on `kind`,
/// in passband `band`.
fn push_columns(out: &mut Vec<String>, names: &[&str], kind: &str, band: &str)
    ensures
        strings_view(final(out)@) == strings_view(old(out)@) + strs_view(names@).map_values(
            |n: Seq<char>| column_name(n, kind@, band@),
        ),
{
    let ghost start = strings_view(out@);
    let ghost target = strs_view(names@).map_values(|n: Seq<char>| column_name(n, kind@, band@));
    let mut i: usize = 0;
    while i < names.len()
        invariant
            i <= names@.len(),
            target == strs_view(names@).map_values(|n: Seq<char>| column_name(n, kind@, band@)),
            strings_view(out@) == start + target.subrange(0, i as int),
        decreases names@.len() - i,
    {
        let mut col = String::new();
        col.append(names[i]);
        col.append("_");
        col.append(kind);
        col.append("_");
        col.append(band);
        let ghost before = out@;
        out.push(col);
        proof {
            assert(col@ == column_name(names@[i as int]@, kind@, band@));
            assert(strs_view(names@)[i as int] == names@[i as int]@);
            assert(strings_view(out@) =~= strings_view(before).push(col@));
            assert(target.subrange(0, i + 1) =~= target.subrange(0, i as int).push(target[i as int]));
        }
        i = i + 1;
    }
    assert(target.subrange(0, names@.len() as int) =~= target);
}

/// The column names of a feature dump: for each passband in turn, each
/// magnitude feature name followed by `_magn_` and the passband, then each
/// flux feature name followed by `_flux_` and the passband.
pub fn feature_column_names(passbands: &[Passband], magn_names: &[&str], flux_names: &[&str]) -> (res:
    Vec<String>)
    ensures
        strings_view(res@) == feature_columns(
            passbands@,
            strs_view(magn_names@),
            strs_view(flux_names@),
        ),
{
    let ghost magn = strs_view(magn_names@);
    let ghost flux = strs_view(flux_names@);
    let mut res: Vec<String> = Vec::new();
    let mut b: usize = 0;
    while b < passbands.len()
        invariant
            b <= passbands@.len(),
            magn == strs_view(magn_names@),
            flux == strs_view(flux_names@),
            strings_view(res@) == feature_columns(passbands@.subrange(0, b as int), magn, flux),
        decreases passbands@.len() - b,
    {
        let band = passbands[b].name();
        push_columns(&mut res, magn_names, "magn", band);
        push_columns(&mut res, flux_names, "flux", band);
        proof {
            let next = passbands@.subrange(0, b + 1);
            assert(next.drop_last() =~= passbands@.subrange(0, b as int));
            assert(next.last() == passbands@[b as int]);
            assert(strings_view(res@) =~= feature_columns(next, magn, flux));
        }
        b = b + 1;
    }
    assert(passbands@.subrange(0, passbands@.len() as int) =~= passbands@);
    res
}

/// Where each column lands: there are `bands.len() * (m + f)` columns, and
/// for passband number `b` the magnitude feature `j` sits at
/// `b * (m + f) + j`, the flux feature `j` at `b * (m + f) + m + j`.
pub proof fn lemma_feature_columns_layout(
    bands: Seq<Passband>,
    magn: Seq<Seq<char>>,
    flux: Seq<Seq<char>>,
)
    ensures
        feature_columns(bands, magn, flux).len() == bands.len() * (magn.len() + flux.len()),
        forall|b: int, j: int|
            0 <= b < bands.len() && 0 <= j < magn.len() ==> #[trigger] feature_columns(
                bands,
                magn,
                flux,
            )[b * (magn.len() + flux.len()) + j] == column_name(
                magn[j],
                "magn"@,
                (#[trigger] bands[b]).spec_name(),
            ),
        forall|b: int, j: int|
            0 <= b < bands.len() && 0 <= j < flux.len() ==> #[trigger] feature_columns(
                bands,
                magn,
                flux,
            )[b * (magn.len() + flux.len()) + magn.len() + j] == column_name(
                flux[j],
                "flux"@,
                (#[trigger] bands[b]).spec_name(),
            ),
    decreases bands.len(),
{
    let w = magn.len() + flux.len();
    if bands.len() > 0 {
        let init = bands.drop_last();
        lemma_feature_columns_layout(init, magn, flux);
        let prev = feature_columns(init, magn, flux);
        let last = band_columns(magn, flux, bands.last().spec_name());
        let all = feature_columns(bands, magn, flux);
        assert(all == prev + last);
        let n = bands.len();
        assert(prev.len() == (n - 1) * w);
        assert((n - 1) * w + w == n * w) by (nonlinear_arith);
        assert forall|b: int, j: int| 0 <= b < bands.len() && 0 <= j < magn.len() implies #[trigger] all[b * w + j]
            == column_name(magn[j], "magn"@, (#[trigger] bands[b]).spec_name()) by {
            if b < n - 1 {
                assert(b * w + w <= (n - 1) * w) by (nonlinear_arith)
                    requires
                        b < n - 1,
                        w >= 0,
                ;
                assert(init[b] == bands[b]);
                assert(all[b * w + j] == prev[b * w + j]);
            } else {
                assert(b * w == (n - 1) * w);
                assert(all[b * w + j] == last[j]);
            }
        }
        assert forall|b: int, j: int| 0 <= b < bands.len() && 0 <= j < flux.len() implies #[trigger] all[b * w
            + magn.len() + j] == column_name(flux[j], "flux"@, (#[trigger] bands[b]).spec_name()) by {
            if b < n - 1 {
                assert(b * w + w <= (n - 1) * w) by (nonlinear_arith)
                    requires
                        b < n - 1,
                        w >= 0,
                ;
                assert(init[b] == bands[b]);
                assert(all[b * w + magn.len() + j] == prev[b * w + magn.len() + j]);
            } else {
                assert(b * w == (n - 1) * w);
                assert(all[b * w + magn.len() + j] == last[magn.len() + j]);
            }
        }
    }
}

/// A column name holds the whole feature name, then `_`, the brightness
/// kind, `_` and the passband label, for every name, kind and label: its
/// first `name.len()` characters are the name, and it is exactly 2
/// characters longer than the three parts together.
pub proof fn lemma_column_name_parts(name: Seq<char>, kind: Seq<char>, band: Seq<char>)
    ensures
        column_name(name, kind, band) =~= name + seq!['_'] + kind + seq!['_'] + band,
        column_name(name, kind, band).len() == name.len() + kind.len() + band.len() + 2,
        column_name(name, kind, band).subrange(0, name.len() as int) =~= name,
        column_name(name, kind, band)[name.len() as int] == '_',
        column_name(name, kind, band).subrange(
            (name.len() + 1) as int,
            (name.len() + 1 + kind.len()) as int,
        ) =~= kind,
        column_name(name, kind, band).subrange(
            (name.len() + kind.len() + 2) as int,
            (name.len() + kind.len() + band.len() + 2) as int,
        ) =~= band,
{
    reveal_strlit("_");
    let col = column_name(name, kind, band);
    assert(col =~= name + seq!['_'] + kind + seq!['_'] + band);
    assert(col.subrange(0, name.len() as int) =~= name);
    assert(col.subrange((name.len() + 1) as int, (name.len() + 1 + kind.len()) as int) =~= kind);
    assert(col.subrange(
        (name.len() + kind.len() + 2) as int,
        (name.len() + kind.len() + band.len() + 2) as int,
    ) =~= band);
}

/// Every feature column spells out, uncut, the feature name, then
/// `_magn_` or `_flux_`, then the passband label.
pub proof fn lemma_feature_columns_spelled_out(
    bands: Seq<Passband>,
    magn: Seq<Seq<char>>,
    flux: Seq<Seq<char>>,
)
    ensures
        forall|b: int, j: int|
            #![trigger bands[b], magn[j]]
            0 <= b < bands.len() && 0 <= j < magn.len() ==> feature_columns(bands, magn, flux)[b * (
            magn.len() + flux.len()) + j] =~= magn[j] + seq!['_', 'm', 'a', 'g', 'n', '_']
                + bands[b].spec_name(),
        forall|b: int, j: int|
            #![trigger bands[b], flux[j]]
            0 <= b < bands.len() && 0 <= j < flux.len() ==> feature_columns(bands, magn, flux)[b * (
            magn.len() + flux.len()) + magn.len() + j] =~= flux[j] + seq!['_', 'f', 'l', 'u', 'x', '_'] + bands[b].spec_name(),
{
    reveal_strlit("_");
    reveal_strlit("magn");
    reveal_strlit("flux");
    lemma_feature_columns_layout(bands, magn, flux);
    assert forall|b: int, j: int|
        #![trigger bands[b], magn[j]]
        0 <= b < bands.len() && 0 <= j < magn.len() implies feature_columns(bands, magn, flux)[b * (
        magn.len() + flux.len()) + j] =~= magn[j] + seq!['_', 'm', 'a', 'g', 'n', '_']
            + bands[b].spec_name() by {
        assert(feature_columns(bands, magn, flux)[b * (magn.len() + flux.len()) + j] == column_name(
            magn[j],
            "magn"@,
            bands[b].spec_name(),
        ));
        assert("magn"@ =~= seq!['m', 'a', 'g', 'n']);
        assert("_"@ =~= seq!['_']);
    }
    assert forall|b: int, j: int|
        #![trigger bands[b], flux[j]]
        0 <= b < bands.len() && 0 <= j < flux.len() implies feature_columns(bands, magn, flux)[b * (
        magn.len() + flux.len()) + magn.len() + j] =~= flux[j] + seq!['_', 'f', 'l', 'u', 'x', '_'] + bands[b].spec_name() by {
        assert(feature_columns(bands, magn, flux)[b * (magn.len() + flux.len()) + magn.len() + j]
            == column_name(flux[j], "flux"@, bands[b].spec_name()));
        assert("flux"@ =~= seq!['f', 'l', 'u', 'x']);
        assert("_"@ =~= seq!['_']);
    }
}

} // verus!
