use vstd::prelude::*;

use crate::errors::Error;

verus! {

/// The marker every trust-store entry ends with.
pub open spec fn sep_text() -> Seq<char> {
    "-----END CERTIFICATE-----"@
}

/// The first position at or after `i` where the end marker stands in `s`.
pub open spec fn find_sep(s: Seq<char>, i: nat) -> Option<nat>
    decreases s.len() - i,
        when i <= s.len()
    via find_sep_decreases
{
    if i + sep_text().len() > s.len() {
        Option::None
    } else if s.subrange(i as int, (i + sep_text().len()) as int) == sep_text() {
        Option::Some(i)
    } else {
        find_sep(s, i + 1)
    }
}

#[via_fn]
proof fn find_sep_decreases(s: Seq<char>, i: nat) {
    reveal_strlit("-----END CERTIFICATE-----");
}

proof fn lemma_find_sep_bounds(s: Seq<char>, i: nat)
    requires
        i <= s.len(),
        find_sep(s, i) is Some,
    ensures
        i <= find_sep(s, i)->0,
        find_sep(s, i)->0 + sep_text().len() <= s.len(),
    decreases s.len() - i,
{
    reveal_strlit("-----END CERTIFICATE-----");
    if i + sep_text().len() > s.len() {
    } else if s.subrange(i as int, (i + sep_text().len()) as int) == sep_text() {
    } else {
        lemma_find_sep_bounds(s, i + 1);
    }
}

/// The bundle's parts from position `i` on: what stands between consecutive
/// end markers, each marker consumed, the tail after the last marker
/// standing as the final part.
pub open spec fn split_from(s: Seq<char>, i: nat) -> Seq<Seq<char>>
    decreases s.len() - i,
        when i <= s.len()
    via split_from_decreases
{
    match find_sep(s, i) {
        Option::None => seq![s.subrange(i as int, s.len() as int)],
        Option::Some(j) => seq![s.subrange(i as int, j as int)] + split_from(
            s,
            j + sep_text().len(),
        ),
    }
}

#[via_fn]
proof fn split_from_decreases(s: Seq<char>, i: nat) {
    reveal_strlit("-----END CERTIFICATE-----");
    if find_sep(s, i) is Some {
        lemma_find_sep_bounds(s, i);
    }
}

/// Whether a piece of text is blank: every character a space, a tab, a
/// carriage return or a line feed.
pub open spec fn is_space(c: char) -> bool {
    c == ' ' || c == '\t' || c == '\r' || c == '\n'
}

pub open spec fn is_blank_text(s: Seq<char>) -> bool {
    forall|i: int| 0 <= i < s.len() ==> is_space(#[trigger] s[i])
}

fn is_blank(s: &str) -> (r: bool)
    ensures
        r == is_blank_text(s@),
{
    let len = s.unicode_len();
    let mut k: usize = 0;
    while k < len
        invariant
            k <= len,
            len == s@.len(),
            forall|i: int| 0 <= i < k ==> is_space(#[trigger] s@[i]),
        decreases len - k,
    {
        let c = s.get_char(k);
        if !(c == ' ' || c == '\t' || c == '\r' || c == '\n') {
            return false;
        }
        k += 1;
    }
    true
}

/// Whether the end marker stands at position `i` of `s`.
fn is_sep_at(s: &str, i: usize, len: usize) -> (r: bool)
    requires
        len == s@.len(),
        i + sep_text().len() <= len,
    ensures
        r == (s@.subrange(i as int, i + sep_text().len()) == sep_text()),
{
    proof {
        reveal_strlit("-----END CERTIFICATE-----");
    }
    let sep = "-----END CERTIFICATE-----";
    let mut k: usize = 0;
    while k < 25
        invariant
            k <= 25,
            len == s@.len(),
            i + sep_text().len() <= len,
            sep@ == sep_text(),
            sep_text().len() == 25,
            forall|t: int| 0 <= t < k ==> s@[i + t] == sep_text()[t],
        decreases 25 - k,
    {
        let c = s.get_char(i + k);
        let d = sep.get_char(k);
        if c != d {
            proof {
                assert(s@.subrange(i as int, i + sep_text().len())[k as int] != sep_text()[k as int]);
            }
            return false;
        }
        k += 1;
    }
    proof {
        assert(s@.subrange(i as int, i + sep_text().len()) =~= sep_text());
    }
    true
}

/// The first position at or after `from` where the end marker stands.
fn find_sep_from(s: &str, from: usize, len: usize) -> (r: Option<usize>)
    requires
        len == s@.len(),
        from <= len,
    ensures
        match r {
            Option::Some(j) => find_sep(s@, from as nat) == Option::Some(j as nat),
            Option::None => find_sep(s@, from as nat) is None,
        },
{
    proof {
        reveal_strlit("-----END CERTIFICATE-----");
    }
    if len < 25 {
        return Option::None;
    }
    let last = len - 25;
    let mut j: usize = from;
    while j <= last
        invariant
            from <= j <= len,
            last == len - 25,
            25 <= len == s@.len(),
            sep_text().len() == 25,
            find_sep(s@, from as nat) == find_sep(s@, j as nat),
        decreases last + 1 - j,
    {
        if is_sep_at(s, j, len) {
            return Option::Some(j);
        }
        j += 1;
    }
    Option::None
}

/// What the external PEM decoder yields for one entry's text: its DER
/// contents, a function of the text alone; nothing where no entry parses.
pub uninterp spec fn pem_parse(s: Seq<char>) -> Option<Seq<u8>>;

/// Relies on x509_parser::pem::parse_x509_pem: the DER contents parsed out
/// of a PEM entry are a function of the entry's text alone.
#[verifier::external_body]
fn pem_to_der(pem: &str) -> (r: Option<Vec<u8>>)
    ensures
        (r matches Option::Some(v) ==> pem_parse(pem@) == Option::Some(v@)),
        (r is None ==> pem_parse(pem@) is None),
{
    match x509_parser::pem::parse_x509_pem(pem.as_bytes()) {
        Ok((_, p)) => Option::Some(p.contents),
        Err(_) => Option::None,
    }
}

/// The DER entries of the first `i` bundle parts: blank parts are passed
/// over, and a part no PEM entry parses from aborts the load.
pub open spec fn trust_ders_upto(parts: Seq<Seq<char>>, i: nat) -> Result<Seq<Seq<u8>>, Error>
    decreases i,
{
    if i == 0 {
        Ok(Seq::empty())
    } else {
        match trust_ders_upto(parts, (i - 1) as nat) {
            Err(e) => Err(e),
            Ok(ds) => {
                let p = parts[i - 1];
                if is_blank_text(p) {
                    Ok(ds)
                } else {
                    match pem_parse(p + sep_text()) {
                        Option::None => Err(Error::X509ParsingError),
                        Option::Some(d) => Ok(ds.push(d)),
                    }
                }
            },
        }
    }
}

/// What loading a trust-store bundle means: split it on the end marker,
/// pass blank parts over, and parse each remaining part, the marker put
/// back, into its DER entry.
pub open spec fn spec_load_trust(bundle: Seq<char>) -> Result<Seq<Seq<u8>>, Error> {
    trust_ders_upto(split_from(bundle, 0), split_from(bundle, 0).len())
}

proof fn lemma_trust_ders_err_persists(parts: Seq<Seq<char>>, i: nat, j: nat)
    requires
        i <= j,
        trust_ders_upto(parts, i) is Err,
    ensures
        trust_ders_upto(parts, j) == trust_ders_upto(parts, i),
    decreases j,
{
    if j > i {
        lemma_trust_ders_err_persists(parts, i, (j - 1) as nat);
    }
}

/// Splits a trust-store bundle on the certificate end marker.
fn split_bundle(bundle: &str) -> (parts: Vec<String>)
    ensures
        crate::chain::string_views(parts@) == split_from(bundle@, 0),
{
    proof {
        reveal_strlit("-----END CERTIFICATE-----");
    }
    let len = bundle.unicode_len();
    let mut parts: Vec<String> = Vec::new();
    let mut pos: usize = 0;
    loop
        invariant_except_break
            pos <= len,
            sep_text().len() == 25,
            len == bundle@.len(),
            split_from(bundle@, 0) == crate::chain::string_views(parts@) + split_from(
                bundle@,
                pos as nat,
            ),
        ensures
            crate::chain::string_views(parts@) == split_from(bundle@, 0),
        decreases len - pos,
    {
        let ghost old_parts = parts@;
        match find_sep_from(bundle, pos, len) {
            Option::Some(j) => {
                proof {
                    lemma_find_sep_bounds(bundle@, pos as nat);
                }
                let part = bundle.substring_char(pos, j);
                parts.push(String::from_str(part));
                proof {
                    assert(crate::chain::string_views(parts@) =~= crate::chain::string_views(
                        old_parts,
                    ).push(bundle@.subrange(pos as int, j as int)));
                    assert(split_from(bundle@, pos as nat) == seq![
                        bundle@.subrange(pos as int, j as int),
                    ] + split_from(bundle@, (j + 25) as nat));
                    assert(split_from(bundle@, 0) =~= crate::chain::string_views(parts@)
                        + split_from(bundle@, (j + 25) as nat));
                }
                pos = j + 25;
            },
            Option::None => {
                let part = bundle.substring_char(pos, len);
                parts.push(String::from_str(part));
                proof {
                    assert(crate::chain::string_views(parts@) =~= crate::chain::string_views(
                        old_parts,
                    ).push(bundle@.subrange(pos as int, len as int)));
                    assert(split_from(bundle@, pos as nat) == seq![
                        bundle@.subrange(pos as int, len as int),
                    ]);
                    assert(crate::chain::string_views(parts@) =~= split_from(bundle@, 0));
                }
                break ;
            },
        }
    }
    parts
}

/// Loads a trust-store bundle: every PEM entry's DER bytes, in bundle
/// order, blank stretches between markers passed over. A part that no PEM
/// entry parses from aborts the load: a trust store is never half-read.
#[verifier::loop_isolation(false)]
pub fn load_trust_ders(bundle: &str) -> (r: Result<Vec<Vec<u8>>, Error>)
    ensures
        (r matches Ok(v) ==> spec_load_trust(bundle@) == Ok::<Seq<Seq<u8>>, Error>(
            crate::chain::bytes_model(v@),
        )),
        (r matches Err(e) ==> spec_load_trust(bundle@) == Err::<Seq<Seq<u8>>, Error>(e)),
{
    let parts = split_bundle(bundle);
    let ghost pv = crate::chain::string_views(parts@);
    let mut ders: Vec<Vec<u8>> = Vec::new();
    proof {
        assert(crate::chain::bytes_model(ders@) =~= Seq::<Seq<u8>>::empty());
    }
    let mut i: usize = 0;
    while i < parts.len()
        invariant
            i <= parts@.len(),
            trust_ders_upto(pv, i as nat) == Ok::<Seq<Seq<u8>>, Error>(
                crate::chain::bytes_model(ders@),
            ),
        decreases parts@.len() - i,
    {
        let part = &parts[i];
        let ghost prev = crate::chain::bytes_model(ders@);
        if !is_blank(part.as_str()) {
            let mut entry = String::from_str(part.as_str());
            entry.append("-----END CERTIFICATE-----");
            proof {
                assert(entry@ == pv[i as int] + sep_text());
            }
            match pem_to_der(entry.as_str()) {
                Option::Some(d) => {
                    let ghost dv = d@;
                    ders.push(d);
                    proof {
                        assert(crate::chain::bytes_model(ders@) =~= prev.push(dv));
                    }
                },
                Option::None => {
                    proof {
                        lemma_trust_ders_err_persists(pv, (i + 1) as nat, pv.len());
                    }
                    return Err(Error::X509ParsingError);
                },
            }
        }
        i += 1;
    }
    Ok(ders)
}

} // verus!
