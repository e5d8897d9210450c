use vstd::prelude::*;

use crate::encode::check_signature;
use crate::encode::fingerprint_hex;
use crate::encode::fingerprint_of;
use crate::encode::issued_check;
use crate::encode::issued_of;
use crate::encode::sig_of;
use crate::errors::Error;
use crate::facts::Fact;
use crate::facts::FactModel;
use crate::facts::count_fingerprints;
use crate::facts::count_issuer_links;
use crate::facts::count_links;
use crate::facts::facts_model;
use crate::facts::fp_ids;
use crate::facts::lemma_counts_concat;
use crate::facts::lemma_counts_snoc;
use crate::facts::lemma_fp_ids_concat;
use crate::facts::lemma_fp_ids_snoc;
use crate::facts::lemma_links_concat;
use crate::facts::lemma_links_snoc;

verus! {

/// One certificate as the translator reads it: its encoded bytes, and the
/// certificate encoder's attribute fact block — absent where the encoder
/// could not decode the certificate.
pub struct CertInput {
    pub der: Vec<u8>,
    pub attrs: Option<String>,
}

/// The mathematical shape of one certificate input.
pub struct CertData {
    pub der: Seq<u8>,
    pub attrs: Option<Seq<char>>,
}

impl View for CertInput {
    type V = CertData;

    open spec fn view(&self) -> CertData {
        CertData {
            der: self.der@,
            attrs: match self.attrs {
                Option::Some(s) => Option::Some(s@),
                Option::None => Option::None,
            },
        }
    }
}

pub open spec fn cert_views(s: Seq<CertInput>) -> Seq<CertData> {
    s.map_values(|c: CertInput| c@)
}

/// One revocation-fact request: a consecutive (subject, issuer) pair of the
/// verified stack, leaf-first, with the flags the revocation-fact generator
/// is to be invoked with. Stapling is honored only for the first pair.
#[derive(Debug, Clone, PartialEq, Eq)]
pub struct RevRequest {
    pub index: u64,
    pub subject_der: Vec<u8>,
    pub issuer_der: Vec<u8>,
    pub check_ocsp: bool,
    pub check_staple: bool,
}

/// The mathematical shape of one revocation-fact request.
pub struct RevModel {
    pub index: nat,
    pub subject_der: Seq<u8>,
    pub issuer_der: Seq<u8>,
    pub check_ocsp: bool,
    pub check_staple: bool,
}

impl View for RevRequest {
    type V = RevModel;

    open spec fn view(&self) -> RevModel {
        RevModel {
            index: self.index as nat,
            subject_der: self.subject_der@,
            issuer_der: self.issuer_der@,
            check_ocsp: self.check_ocsp,
            check_staple: self.check_staple,
        }
    }
}

/// What translating a chain yields: the fact statements in order, the
/// revocation-fact requests for the consecutive pairs of the verified
/// stack, and whether any trust-store entry stood as an issuer.
#[derive(Debug)]
pub struct Translation {
    pub facts: Vec<Fact>,
    pub revocations: Vec<RevRequest>,
    pub found_issuer: bool,
}

/// The mathematical shape of a finished translation.
#[verifier::ext_equal]
pub struct TranslationModel {
    pub facts: Seq<FactModel>,
    pub revocations: Seq<RevModel>,
    pub found_issuer: bool,
}

/// The models of a sequence of revocation-fact requests.
pub open spec fn rev_views(s: Seq<RevRequest>) -> Seq<RevModel> {
    s.map_values(|r: RevRequest| r@)
}

impl View for Translation {
    type V = TranslationModel;

    open spec fn view(&self) -> TranslationModel {
        TranslationModel {
            facts: facts_model(self.facts@),
            revocations: rev_views(self.revocations@),
            found_issuer: self.found_issuer,
        }
    }
}

/// The leaf's opening block: its fingerprint under identifier 0 and its
/// attribute block, closed by a blank line.
pub open spec fn leaf_block(leaf: CertData) -> Seq<FactModel> {
    seq![
        FactModel::Fingerprint { id: 0, hex: fingerprint_of(leaf.der) },
        FactModel::Attributes { block: leaf.attrs->0, padded: true },
    ]
}

/// A verified intermediate's block under identifier `id`: fingerprint,
/// attribute block, and the issuer fact to its predecessor.
pub open spec fn cert_block(id: nat, c: CertData) -> Seq<FactModel> {
    seq![
        FactModel::Fingerprint { id: id, hex: fingerprint_of(c.der) },
        FactModel::Attributes { block: c.attrs->0, padded: false },
        FactModel::IssuerLink { subject: (id - 1) as nat, issuer: id },
    ]
}

/// A discovered trust-store entry's block under identifier `id`: its
/// fingerprint, its attribute block, and the issuer fact from the matched
/// chain member to it.
pub open spec fn root_block(id: nat, root: CertData, member_id: nat) -> Seq<FactModel> {
    seq![
        FactModel::Fingerprint { id: id, hex: fingerprint_of(root.der) },
        FactModel::Attributes { block: root.attrs->0, padded: false },
        FactModel::IssuerLink { subject: member_id, issuer: id },
    ]
}

/// The facts after the leaf and the first `i` supplied intermediates: each
/// intermediate must verify the signature of its predecessor in the walk,
/// an engine failure or a failed verification or an undecodable certificate
/// aborting the whole translation.
pub open spec fn walk_upto(chain: Seq<CertData>, i: nat) -> Result<Seq<FactModel>, Error>
    decreases i,
{
    if i == 0 {
        if chain[0].attrs is None {
            Err(Error::X509ParsingError)
        } else {
            Ok(leaf_block(chain[0]))
        }
    } else {
        match walk_upto(chain, (i - 1) as nat) {
            Err(e) => Err(e),
            Ok(fs) => match sig_of(chain[i - 1].der, chain[i as int].der) {
                Option::None => Err(Error::OpenSSLFailed),
                Option::Some(ok) => if !ok {
                    Err(Error::OpenSSLInvalid)
                } else if chain[i as int].attrs is None {
                    Err(Error::X509ParsingError)
                } else {
                    Ok(fs + cert_block(i, chain[i as int]))
                },
            },
        }
    }
}

proof fn lemma_walk_err_persists(chain: Seq<CertData>, i: nat, j: nat)
    requires
        i <= j,
        walk_upto(chain, i) is Err,
    ensures
        walk_upto(chain, j) == walk_upto(chain, i),
    decreases j,
{
    if j > i {
        lemma_walk_err_persists(chain, i, (j - 1) as nat);
    }
}

/// The chain members root discovery tests trust-store entries against,
/// each with its identifier: the supplied intermediates, or the leaf alone
/// where none were supplied.
pub open spec fn members_of(chain: Seq<CertData>) -> Seq<(nat, Seq<u8>)> {
    if chain.len() <= 1 {
        seq![(0nat, chain[0].der)]
    } else {
        Seq::new((chain.len() - 1) as nat, |j: int| ((j + 1) as nat, chain[j + 1].der))
    }
}

/// The scan's running state: the facts so far, the verified stack of
/// encoded certificates (intermediates, then discovered roots), the next
/// free identifier, and whether any entry stood as an issuer yet.
#[verifier::ext_equal]
pub struct ScanState {
    pub facts: Seq<FactModel>,
    pub stack: Seq<Seq<u8>>,
    pub next_id: nat,
    pub found_issuer: bool,
}

/// One trust-store entry tested against the first `j` chain members: every
/// match appends the entry's block under a fresh identifier and pushes the
/// entry onto the verified stack; a matched entry the encoder could not
/// decode aborts the translation.
pub open spec fn scan_root_upto(
    root: CertData,
    members: Seq<(nat, Seq<u8>)>,
    j: nat,
    st: ScanState,
) -> Result<ScanState, Error>
    decreases j,
{
    if j == 0 {
        Ok(st)
    } else {
        match scan_root_upto(root, members, (j - 1) as nat, st) {
            Err(e) => Err(e),
            Ok(s) => if issued_of(root.der, members[j - 1].1) {
                if root.attrs is None {
                    Err(Error::X509ParsingError)
                } else {
                    Ok(
                        ScanState {
                            facts: s.facts + root_block(s.next_id, root, members[j - 1].0),
                            stack: s.stack.push(root.der),
                            next_id: s.next_id + 1,
                            found_issuer: true,
                        },
                    )
                }
            } else {
                Ok(s)
            },
        }
    }
}

/// The first `i` trust-store entries, each tested against every chain
/// member in order.
pub open spec fn scan_upto(
    roots: Seq<CertData>,
    members: Seq<(nat, Seq<u8>)>,
    i: nat,
    st: ScanState,
) -> Result<ScanState, Error>
    decreases i,
{
    if i == 0 {
        Ok(st)
    } else {
        match scan_upto(roots, members, (i - 1) as nat, st) {
            Err(e) => Err(e),
            Ok(s) => scan_root_upto(roots[i - 1], members, members.len(), s),
        }
    }
}

proof fn lemma_scan_root_err_persists(
    root: CertData,
    members: Seq<(nat, Seq<u8>)>,
    j: nat,
    j2: nat,
    st: ScanState,
)
    requires
        j <= j2,
        scan_root_upto(root, members, j, st) is Err,
    ensures
        scan_root_upto(root, members, j2, st) == scan_root_upto(root, members, j, st),
    decreases j2,
{
    if j2 > j {
        lemma_scan_root_err_persists(root, members, j, (j2 - 1) as nat, st);
    }
}

proof fn lemma_scan_err_persists(
    roots: Seq<CertData>,
    members: Seq<(nat, Seq<u8>)>,
    i: nat,
    i2: nat,
    st: ScanState,
)
    requires
        i <= i2,
        scan_upto(roots, members, i, st) is Err,
    ensures
        scan_upto(roots, members, i2, st) == scan_upto(roots, members, i, st),
    decreases i2,
{
    if i2 > i {
        lemma_scan_err_persists(roots, members, i, (i2 - 1) as nat, st);
    }
}

/// The revocation-fact requests for a verified stack: one per consecutive
/// (subject, issuer) pair, leaf-first, stapling honored only for the first.
pub open spec fn rev_model(
    leaf_der: Seq<u8>,
    stack: Seq<Seq<u8>>,
    check_ocsp: bool,
    staple: bool,
) -> Seq<RevModel> {
    Seq::new(
        stack.len(),
        |i: int|
            RevModel {
                index: i as nat,
                subject_der: if i == 0 {
                    leaf_der
                } else {
                    stack[i - 1]
                },
                issuer_der: stack[i],
                check_ocsp: check_ocsp,
                check_staple: staple && i == 0,
            },
    )
}

/// The verified stack before root discovery: the encoded intermediates.
pub open spec fn int_ders(chain: Seq<CertData>) -> Seq<Seq<u8>> {
    Seq::new((chain.len() - 1) as nat, |j: int| chain[j + 1].der)
}

/// What translating a chain against a trust store means: walk the leaf and
/// the supplied intermediates, then test every trust-store entry against
/// every chain member, then request revocation facts for the consecutive
/// pairs of the verified stack.
pub open spec fn spec_translate(
    chain: Seq<CertData>,
    roots: Seq<CertData>,
    check_ocsp: bool,
    staple: bool,
) -> Result<TranslationModel, Error> {
    match walk_upto(chain, (chain.len() - 1) as nat) {
        Err(e) => Err(e),
        Ok(fs) => {
            let st0 = ScanState {
                facts: fs,
                stack: int_ders(chain),
                next_id: chain.len() as nat,
                found_issuer: false,
            };
            match scan_upto(roots, members_of(chain), roots.len(), st0) {
                Err(e) => Err(e),
                Ok(s) => Ok(
                    TranslationModel {
                        facts: s.facts,
                        revocations: rev_model(chain[0].der, s.stack, check_ocsp, staple),
                        found_issuer: s.found_issuer,
                    },
                ),
            }
        },
    }
}

pub open spec fn bytes_model(s: Seq<Vec<u8>>) -> Seq<Seq<u8>> {
    s.map_values(|v: Vec<u8>| v@)
}

/// A plain copy of a byte vector.
fn clone_bytes(v: &Vec<u8>) -> (r: Vec<u8>)
    ensures
        r@ == v@,
{
    let mut r: Vec<u8> = Vec::new();
    let mut i: usize = 0;
    while i < v.len()
        invariant
            i <= v@.len(),
            r@ =~= v@.take(i as int),
        decreases v@.len() - i,
    {
        r.push(v[i]);
        proof {
            assert(r@ =~= v@.take(i + 1));
        }
        i += 1;
    }
    proof {
        assert(v@.take(v@.len() as int) =~= v@);
    }
    r
}

/// Translates one captured chain into its fact statements: the leaf under
/// identifier 0, each supplied intermediate verified against its
/// predecessor and given the next identifier, every trust-store entry
/// standing as an issuer of a chain member appended after them, and one
/// revocation-fact request per consecutive pair of the verified stack.
/// Errors abort the whole translation; the stapled response itself is left
/// to the revocation-fact generator.
#[verifier::loop_isolation(false)]
#[verifier::rlimit(100)]
pub fn parse_chain(
    chain: &Vec<CertInput>,
    _stapled_ocsp_response: Option<&[u8]>,
    check_ocsp: bool,
    staple: bool,
    roots: &Vec<CertInput>,
) -> (r: Result<Translation, Error>)
    requires
        1 <= chain@.len() <= 0x7FFF_FFFF,
        roots@.len() <= 0x7FFF_FFFF,
    ensures
        (r matches Ok(t) ==> spec_translate(cert_views(chain@), cert_views(roots@), check_ocsp, staple)
            == Ok::<TranslationModel, Error>(t@)),
        (r matches Err(e) ==> spec_translate(cert_views(chain@), cert_views(roots@), check_ocsp, staple)
            == Err::<TranslationModel, Error>(e)),
{
    let ghost cv = cert_views(chain@);
    let ghost rv = cert_views(roots@);
    let n = chain.len();
    let mut facts: Vec<Fact> = Vec::new();

    let leaf = &chain[0];
    let leaf_attrs: &String = match &leaf.attrs {
        Option::Some(a) => a,
        Option::None => {
            proof {
                lemma_walk_err_persists(cv, 0, (cv.len() - 1) as nat);
            }
            return Err(Error::X509ParsingError);
        },
    };
    let leaf_fp = fingerprint_hex(leaf.der.as_slice());
    facts.push(Fact::Fingerprint { id: 0, hex: leaf_fp });
    facts.push(Fact::Attributes { block: leaf_attrs.clone(), padded: true });
    proof {
        assert(facts_model(facts@) =~= leaf_block(cv[0]));
    }

    let mut stack: Vec<Vec<u8>> = Vec::new();
    let mut i: usize = 1;
    while i < n
        invariant
            1 <= i <= n,
            n == chain@.len(),
            cv == cert_views(chain@),
            chain@.len() <= 0x7FFF_FFFF,
            walk_upto(cv, (i - 1) as nat) == Ok::<Seq<FactModel>, Error>(facts_model(facts@)),
            bytes_model(stack@) =~= int_ders(cv).take(i - 1),
        decreases n - i,
    {
        let prev = &chain[i - 1];
        let cur = &chain[i];
        match check_signature(prev.der.as_slice(), cur.der.as_slice()) {
            Option::None => {
                proof {
                    lemma_walk_err_persists(cv, i as nat, (cv.len() - 1) as nat);
                }
                return Err(Error::OpenSSLFailed);
            },
            Option::Some(ok) => {
                if !ok {
                    proof {
                        lemma_walk_err_persists(cv, i as nat, (cv.len() - 1) as nat);
                    }
                    return Err(Error::OpenSSLInvalid);
                }
            },
        }
        let cur_attrs: &String = match &cur.attrs {
            Option::Some(a) => a,
            Option::None => {
                proof {
                    lemma_walk_err_persists(cv, i as nat, (cv.len() - 1) as nat);
                }
                return Err(Error::X509ParsingError);
            },
        };
        let ghost before = facts_model(facts@);
        let cur_fp = fingerprint_hex(cur.der.as_slice());
        facts.push(Fact::Fingerprint { id: i as u64, hex: cur_fp });
        facts.push(Fact::Attributes { block: cur_attrs.clone(), padded: false });
        facts.push(Fact::IssuerLink { subject: (i - 1) as u64, issuer: i as u64 });
        stack.push(clone_bytes(&cur.der));
        proof {
            assert(facts_model(facts@) =~= before + cert_block(i as nat, cv[i as int]));
            assert(bytes_model(stack@) =~= int_ders(cv).take(i as int));
        }
        i += 1;
    }
    proof {
        assert(int_ders(cv).take(n - 1) =~= int_ders(cv));
    }

    // Root discovery: every trust-store entry against every chain member.
    let member_count: usize = if n == 1 {
        1
    } else {
        n - 1
    };
    let ghost mems = members_of(cv);
    let ghost st0 = ScanState {
        facts: facts_model(facts@),
        stack: bytes_model(stack@),
        next_id: n as nat,
        found_issuer: false,
    };
    let mut next_id: u64 = n as u64;
    let mut found_issuer = false;
    let mut ri: usize = 0;
    while ri < roots.len()
        invariant
            ri <= roots@.len(),
            n == chain@.len(),
            1 <= n <= 0x7FFF_FFFF,
            roots@.len() <= 0x7FFF_FFFF,
            cv == cert_views(chain@),
            rv == cert_views(roots@),
            mems == members_of(cv),
            member_count == mems.len(),
            member_count <= n,
            scan_upto(rv, mems, ri as nat, st0) == Ok::<ScanState, Error>(
                ScanState {
                    facts: facts_model(facts@),
                    stack: bytes_model(stack@),
                    next_id: next_id as nat,
                    found_issuer: found_issuer,
                },
            ),
            next_id as nat <= n + ri * member_count,
        decreases roots@.len() - ri,
    {
        let root = &roots[ri];
        let ghost souter = ScanState {
            facts: facts_model(facts@),
            stack: bytes_model(stack@),
            next_id: next_id as nat,
            found_issuer: found_issuer,
        };
        let mut m: usize = 0;
        while m < member_count
            invariant
                m <= member_count,
                ri < roots@.len(),
                n == chain@.len(),
                1 <= n <= 0x7FFF_FFFF,
                roots@.len() <= 0x7FFF_FFFF,
                cv == cert_views(chain@),
                rv == cert_views(roots@),
                mems == members_of(cv),
                member_count == mems.len(),
                member_count <= n,
                root == &roots[ri as int],
                scan_upto(rv, mems, ri as nat, st0) == Ok::<ScanState, Error>(souter),
                scan_root_upto(rv[ri as int], mems, m as nat, souter) == Ok::<ScanState, Error>(
                    ScanState {
                        facts: facts_model(facts@),
                        stack: bytes_model(stack@),
                        next_id: next_id as nat,
                        found_issuer: found_issuer,
                    },
                ),
                next_id as nat <= n + ri * member_count + m,
            decreases member_count - m,
        {
            let ghost scur = ScanState {
                facts: facts_model(facts@),
                stack: bytes_model(stack@),
                next_id: next_id as nat,
                found_issuer: found_issuer,
            };
            let member_idx: usize = if n == 1 {
                0
            } else {
                m + 1
            };
            let member_id: u64 = member_idx as u64;
            proof {
                assert(mems[m as int] == ((member_id as nat), cv[member_idx as int].der));
            }
            let mder = &chain[member_idx].der;
            if issued_check(root.der.as_slice(), mder.as_slice()) {
                let root_attrs: &String = match &root.attrs {
                    Option::Some(a) => a,
                    Option::None => {
                        proof {
                            lemma_scan_root_err_persists(
                                rv[ri as int],
                                mems,
                                (m + 1) as nat,
                                mems.len(),
                                souter,
                            );
                            lemma_scan_err_persists(rv, mems, (ri + 1) as nat, rv.len(), st0);
                        }
                        return Err(Error::X509ParsingError);
                    },
                };
                proof {
                    assert(ri * member_count + m <= 0x7FFF_FFFF * 0x7FFF_FFFF) by (nonlinear_arith)
                        requires
                            0 <= ri < 0x7FFF_FFFF,
                            0 <= m <= member_count <= 0x7FFF_FFFF,
                    ;
                }
                let root_fp = fingerprint_hex(root.der.as_slice());
                facts.push(Fact::Fingerprint { id: next_id, hex: root_fp });
                facts.push(Fact::Attributes { block: root_attrs.clone(), padded: false });
                facts.push(Fact::IssuerLink { subject: member_id, issuer: next_id });
                stack.push(clone_bytes(&root.der));
                proof {
                    assert(facts_model(facts@) =~= scur.facts + root_block(
                        next_id as nat,
                        rv[ri as int],
                        member_id as nat,
                    ));
                    assert(bytes_model(stack@) =~= scur.stack.push(rv[ri as int].der));
                }
                next_id = next_id + 1;
                found_issuer = true;
            }
            proof {
                assert(scan_root_upto(rv[ri as int], mems, (m + 1) as nat, souter)
                    == Ok::<ScanState, Error>(
                    ScanState {
                        facts: facts_model(facts@),
                        stack: bytes_model(stack@),
                        next_id: next_id as nat,
                        found_issuer: found_issuer,
                    },
                ));
            }
            m += 1;
        }
        proof {
            assert(n + ri * member_count + member_count == n + (ri + 1) * member_count)
                by (nonlinear_arith);
        }
        ri += 1;
    }
    // An absent issuer is non-fatal: found_issuer rides along for the
    // caller to log, and translation proceeds without a root fact.
    // Revocation-fact requests for the consecutive pairs of the stack.
    let ghost final_stack = bytes_model(stack@);
    let mut revs: Vec<RevRequest> = Vec::new();
    let mut k: usize = 0;
    while k < stack.len()
        invariant
            k <= stack@.len(),
            final_stack == bytes_model(stack@),
            cv == cert_views(chain@),
            chain@.len() >= 1,
            rev_views(revs@) =~= rev_model(cv[0].der, final_stack, check_ocsp, staple).take(
                k as int,
            ),
        decreases stack@.len() - k,
    {
        let subject_der = if k == 0 {
            clone_bytes(&chain[0].der)
        } else {
            clone_bytes(&stack[k - 1])
        };
        let issuer_der = clone_bytes(&stack[k]);
        revs.push(
            RevRequest {
                index: k as u64,
                subject_der,
                issuer_der,
                check_ocsp,
                check_staple: staple && k == 0,
            },
        );
        proof {
            assert(rev_views(revs@) =~= rev_model(cv[0].der, final_stack, check_ocsp, staple).take(
                k + 1,
            ));
        }
        k += 1;
    }
    proof {
        assert(rev_model(cv[0].der, final_stack, check_ocsp, staple).take(stack@.len() as int)
            =~= rev_model(cv[0].der, final_stack, check_ocsp, staple));
    }

    let t = Translation { facts, revocations: revs, found_issuer };
    proof {
        assert(spec_translate(cv, rv, check_ocsp, staple) == Ok::<TranslationModel, Error>(t@));
    }
    Ok(t)
}

/// The revocation facts standing for a sequence of generator blocks.
pub open spec fn rev_block_facts(s: Seq<Seq<char>>) -> Seq<FactModel> {
    s.map_values(|b: Seq<char>| FactModel::Revocation { block: b })
}

/// The views of a sequence of strings.
pub open spec fn string_views(s: Seq<String>) -> Seq<Seq<char>> {
    s.map_values(|b: String| b@)
}

/// Appends the revocation-fact generator's blocks to a fact document, in
/// the order the requests were issued.
#[verifier::loop_isolation(false)]
pub fn append_revocation_facts(facts: &mut Vec<Fact>, blocks: &Vec<String>)
    ensures
        facts_model(final(facts)@) == facts_model(old(facts)@) + rev_block_facts(
            string_views(blocks@),
        ),
{
    let ghost target = rev_block_facts(string_views(blocks@));
    let mut k: usize = 0;
    while k < blocks.len()
        invariant
            k <= blocks@.len(),
            facts_model(facts@) =~= facts_model(old(facts)@) + target.take(k as int),
        decreases blocks@.len() - k,
    {
        let ghost prev = facts@;
        let block = blocks[k].clone();
        let f = Fact::Revocation { block };
        let ghost fv = f@;
        facts.push(f);
        proof {
            assert(string_views(blocks@)[k as int] == blocks@[k as int]@);
            assert(target[k as int] == (FactModel::Revocation { block: blocks@[k as int]@ }));
            assert(fv == target[k as int]);
            assert(facts_model(facts@) =~= facts_model(prev).push(fv));
            assert(facts_model(facts@) =~= facts_model(old(facts)@) + target.take(k + 1));
        }
        k += 1;
    }
    proof {
        assert(target.take(blocks@.len() as int) =~= target);
        assert(facts_model(facts@) =~= facts_model(old(facts)@) + target);
    }
}

/// Consecutive identifiers: lo, lo+1, ..., lo+count-1.
pub open spec fn idseq_from(lo: nat, count: nat) -> Seq<nat> {
    Seq::new(count, |i: int| (lo + i) as nat)
}

proof fn lemma_leaf_block_shape(leaf: CertData)
    ensures
        count_fingerprints(leaf_block(leaf)) == 1,
        count_issuer_links(leaf_block(leaf)) == 0,
        fp_ids(leaf_block(leaf)) =~= seq![0nat],
        forall|a: nat, b: nat| #[trigger] count_links(leaf_block(leaf), a, b) == 0,
{
    let lb = leaf_block(leaf);
    let s1 = Seq::<FactModel>::empty().push(lb[0]);
    let s2 = s1.push(lb[1]);
    assert(lb =~= s2);
    lemma_counts_snoc(Seq::empty(), lb[0]);
    lemma_counts_snoc(s1, lb[1]);
    lemma_fp_ids_snoc(Seq::empty(), lb[0]);
    lemma_fp_ids_snoc(s1, lb[1]);
    assert(fp_ids(lb) =~= seq![0nat]);
    assert forall|a: nat, b: nat| #[trigger] count_links(lb, a, b) == 0 by {
        lemma_links_snoc(Seq::empty(), lb[0], a, b);
        lemma_links_snoc(s1, lb[1], a, b);
    }
}

proof fn lemma_block3_shape(blk: Seq<FactModel>, id: nat, sub: nat, iss: nat)
    requires
        blk.len() == 3,
        blk[0] is Fingerprint,
        blk[0]->Fingerprint_id == id,
        blk[1] is Attributes,
        blk[2] == (FactModel::IssuerLink { subject: sub, issuer: iss }),
    ensures
        count_fingerprints(blk) == 1,
        count_issuer_links(blk) == 1,
        fp_ids(blk) =~= seq![id],
        forall|a: nat, b: nat| #[trigger] count_links(blk, a, b) == (if a == sub && b == iss {
            1nat
        } else {
            0nat
        }),
{
    let s1 = Seq::<FactModel>::empty().push(blk[0]);
    let s2 = s1.push(blk[1]);
    let s3 = s2.push(blk[2]);
    assert(blk =~= s3);
    lemma_counts_snoc(Seq::empty(), blk[0]);
    lemma_counts_snoc(s1, blk[1]);
    lemma_counts_snoc(s2, blk[2]);
    lemma_fp_ids_snoc(Seq::empty(), blk[0]);
    lemma_fp_ids_snoc(s1, blk[1]);
    lemma_fp_ids_snoc(s2, blk[2]);
    assert(fp_ids(blk) =~= seq![id]);
    assert forall|a: nat, b: nat| #[trigger] count_links(blk, a, b) == (if a == sub && b == iss {
        1nat
    } else {
        0nat
    }) by {
        lemma_links_snoc(Seq::empty(), blk[0], a, b);
        lemma_links_snoc(s1, blk[1], a, b);
        lemma_links_snoc(s2, blk[2], a, b);
    }
}

proof fn lemma_walk_shape(chain: Seq<CertData>, i: nat)
    requires
        walk_upto(chain, i) is Ok,
    ensures
        ({
            let fs = walk_upto(chain, i)->Ok_0;
            &&& count_fingerprints(fs) == i + 1
            &&& count_issuer_links(fs) == i
            &&& fp_ids(fs) =~= idseq_from(0, i + 1)
            &&& forall|a: nat, b: nat|
                #[trigger] count_links(fs, a, b) == (if a + 1 == b && 1 <= b <= i {
                    1nat
                } else {
                    0nat
                })
        }),
    decreases i,
{
    let fs = walk_upto(chain, i)->Ok_0;
    if i == 0 {
        lemma_leaf_block_shape(chain[0]);
        assert(fp_ids(fs) =~= idseq_from(0, 1));
    } else {
        lemma_walk_shape(chain, (i - 1) as nat);
        let prev = walk_upto(chain, (i - 1) as nat)->Ok_0;
        let blk = cert_block(i, chain[i as int]);
        assert(fs == prev + blk);
        lemma_block3_shape(blk, i, (i - 1) as nat, i);
        lemma_counts_concat(prev, blk);
        lemma_fp_ids_concat(prev, blk);
        assert(fp_ids(fs) =~= idseq_from(0, i + 1));
        assert forall|a: nat, b: nat|
            #[trigger] count_links(fs, a, b) == (if a + 1 == b && 1 <= b <= i {
                1nat
            } else {
                0nat
            }) by {
            lemma_links_concat(prev, blk, a, b);
        }
    }
}

/// How many of the first `j` chain members one trust-store entry stands in
/// the issued relation with.
pub open spec fn member_matches(root: CertData, members: Seq<(nat, Seq<u8>)>, j: nat) -> nat
    decreases j,
{
    if j == 0 {
        0
    } else {
        member_matches(root, members, (j - 1) as nat) + (if issued_of(
            root.der,
            members[j - 1].1,
        ) {
            1nat
        } else {
            0nat
        })
    }
}

/// How many (trust-store entry, chain member) pairs stand in the issued
/// relation, over the first `i` entries: the roots discovery appends.
pub open spec fn match_count(
    roots: Seq<CertData>,
    members: Seq<(nat, Seq<u8>)>,
    i: nat,
) -> nat
    decreases i,
{
    if i == 0 {
        0
    } else {
        match_count(roots, members, (i - 1) as nat) + member_matches(
            roots[i - 1],
            members,
            members.len(),
        )
    }
}

proof fn lemma_scan_root_shape(
    root: CertData,
    members: Seq<(nat, Seq<u8>)>,
    j: nat,
    st: ScanState,
)
    requires
        scan_root_upto(root, members, j, st) is Ok,
    ensures
        ({
            let s = scan_root_upto(root, members, j, st)->Ok_0;
            &&& s.next_id == st.next_id + member_matches(root, members, j)
            &&& st.next_id <= s.next_id
            &&& s.stack.len() == st.stack.len() + (s.next_id - st.next_id)
            &&& count_fingerprints(s.facts) == count_fingerprints(st.facts) + (s.next_id
                - st.next_id)
            &&& count_issuer_links(s.facts) == count_issuer_links(st.facts) + (s.next_id
                - st.next_id)
            &&& fp_ids(s.facts) =~= fp_ids(st.facts) + idseq_from(
                st.next_id,
                (s.next_id - st.next_id) as nat,
            )
            &&& forall|a: nat, b: nat|
                b < st.next_id ==> #[trigger] count_links(s.facts, a, b) == count_links(
                    st.facts,
                    a,
                    b,
                )
        }),
    decreases j,
{
    if j == 0 {
        let s = scan_root_upto(root, members, j, st)->Ok_0;
        assert(fp_ids(s.facts) =~= fp_ids(st.facts) + idseq_from(st.next_id, 0));
    } else {
        lemma_scan_root_shape(root, members, (j - 1) as nat, st);
        let p = scan_root_upto(root, members, (j - 1) as nat, st)->Ok_0;
        let s = scan_root_upto(root, members, j, st)->Ok_0;
        if issued_of(root.der, members[j - 1].1) {
            let blk = root_block(p.next_id, root, members[j - 1].0);
            assert(s.facts == p.facts + blk);
            lemma_block3_shape(blk, p.next_id, members[j - 1].0, p.next_id);
            lemma_counts_concat(p.facts, blk);
            lemma_fp_ids_concat(p.facts, blk);
            assert(fp_ids(s.facts) =~= fp_ids(st.facts) + idseq_from(
                st.next_id,
                (s.next_id - st.next_id) as nat,
            ));
            assert forall|a: nat, b: nat|
                b < st.next_id implies #[trigger] count_links(s.facts, a, b) == count_links(
                st.facts,
                a,
                b,
            ) by {
                lemma_links_concat(p.facts, blk, a, b);
            }
        }
    }
}

proof fn lemma_scan_shape(
    roots: Seq<CertData>,
    members: Seq<(nat, Seq<u8>)>,
    i: nat,
    st: ScanState,
)
    requires
        scan_upto(roots, members, i, st) is Ok,
    ensures
        ({
            let s = scan_upto(roots, members, i, st)->Ok_0;
            &&& s.next_id == st.next_id + match_count(roots, members, i)
            &&& st.next_id <= s.next_id
            &&& s.stack.len() == st.stack.len() + (s.next_id - st.next_id)
            &&& count_fingerprints(s.facts) == count_fingerprints(st.facts) + (s.next_id
                - st.next_id)
            &&& count_issuer_links(s.facts) == count_issuer_links(st.facts) + (s.next_id
                - st.next_id)
            &&& fp_ids(s.facts) =~= fp_ids(st.facts) + idseq_from(
                st.next_id,
                (s.next_id - st.next_id) as nat,
            )
            &&& forall|a: nat, b: nat|
                b < st.next_id ==> #[trigger] count_links(s.facts, a, b) == count_links(
                    st.facts,
                    a,
                    b,
                )
        }),
    decreases i,
{
    if i == 0 {
        let s = scan_upto(roots, members, i, st)->Ok_0;
        assert(fp_ids(s.facts) =~= fp_ids(st.facts) + idseq_from(st.next_id, 0));
    } else {
        lemma_scan_shape(roots, members, (i - 1) as nat, st);
        let p = scan_upto(roots, members, (i - 1) as nat, st)->Ok_0;
        let s = scan_upto(roots, members, i, st)->Ok_0;
        lemma_scan_root_shape(roots[i - 1], members, members.len(), p);
        assert(fp_ids(s.facts) =~= fp_ids(st.facts) + idseq_from(
            st.next_id,
            (s.next_id - st.next_id) as nat,
        ));
    }
}

/// For a leaf and a supplied intermediate whose key verifies the leaf's
/// signature — what a finished translation presupposes — exactly one
/// issuer fact links identifier 0 to identifier 1, and the fingerprint
/// identifiers climb from 0 in steps of one.
pub proof fn lemma_leaf_intermediate_link(
    chain: Seq<CertData>,
    roots: Seq<CertData>,
    check_ocsp: bool,
    staple: bool,
    t: TranslationModel,
)
    requires
        chain.len() >= 2,
        spec_translate(chain, roots, check_ocsp, staple) == Ok::<TranslationModel, Error>(t),
    ensures
        count_links(t.facts, 0, 1) == 1,
        forall|j: nat|
            1 <= j < chain.len() ==> #[trigger] count_links(t.facts, (j - 1) as nat, j) == 1,
        fp_ids(t.facts) =~= idseq_from(0, count_fingerprints(t.facts)),
{
    let n = chain.len() as nat;
    lemma_walk_shape(chain, (n - 1) as nat);
    let fs = walk_upto(chain, (n - 1) as nat)->Ok_0;
    let st0 = ScanState {
        facts: fs,
        stack: int_ders(chain),
        next_id: n,
        found_issuer: false,
    };
    lemma_scan_shape(roots, members_of(chain), roots.len(), st0);
    let s = scan_upto(roots, members_of(chain), roots.len(), st0)->Ok_0;
    assert(t.facts == s.facts);
    assert(count_links(s.facts, 0, 1) == count_links(fs, 0, 1));
    assert forall|j: nat| 1 <= j < chain.len() implies #[trigger] count_links(
        t.facts,
        (j - 1) as nat,
        j,
    ) == 1 by {
        assert(count_links(s.facts, (j - 1) as nat, j) == count_links(fs, (j - 1) as nat, j));
    }
    assert(fp_ids(t.facts) =~= idseq_from(0, count_fingerprints(t.facts)));
}

/// Revocation-fact requests walk the verified stack leaf-first in
/// consecutive (subject, issuer) pairs: the first subject is the leaf,
/// every later subject is the previous pair's issuer, the OCSP flag rides
/// along unchanged, and stapling is honored only for the first pair.
pub proof fn lemma_revocation_pairs(
    chain: Seq<CertData>,
    roots: Seq<CertData>,
    check_ocsp: bool,
    staple: bool,
    t: TranslationModel,
)
    requires
        chain.len() >= 1,
        spec_translate(chain, roots, check_ocsp, staple) == Ok::<TranslationModel, Error>(t),
    ensures
        forall|i: int|
            0 <= i < t.revocations.len() ==> (#[trigger] t.revocations[i]).index == i,
        forall|i: int|
            0 <= i < t.revocations.len() ==> (#[trigger] t.revocations[i]).check_ocsp
                == check_ocsp,
        forall|i: int|
            0 <= i < t.revocations.len() ==> ((#[trigger] t.revocations[i]).check_staple == (
            staple && i == 0)),
        t.revocations.len() >= 1 ==> t.revocations[0].subject_der == chain[0].der,
        forall|i: int|
            1 <= i < t.revocations.len() ==> (#[trigger] t.revocations[i]).subject_der
                == t.revocations[i - 1].issuer_der,
{
}

/// A chain with no supplied intermediates puts the leaf, under identifier
/// 0, as the only member root discovery tests trust-store entries against.
pub proof fn lemma_no_intermediates_members(chain: Seq<CertData>)
    requires
        chain.len() == 1,
    ensures
        members_of(chain) == seq![(0nat, chain[0].der)],
{
}

/// A fact document for a chain of N certificates holds N+k fingerprint
/// facts and N+k−1 issuer facts, where k is the number of trust-store
/// matches root discovery appended to the verified stack — the number of
/// revocation pairs less the N−1 intermediate links.
pub proof fn lemma_document_counts(
    chain: Seq<CertData>,
    roots: Seq<CertData>,
    check_ocsp: bool,
    staple: bool,
    t: TranslationModel,
)
    requires
        chain.len() >= 1,
        spec_translate(chain, roots, check_ocsp, staple) == Ok::<TranslationModel, Error>(t),
    ensures
        t.revocations.len() >= chain.len() - 1,
        t.revocations.len() - (chain.len() - 1) == match_count(
            roots,
            members_of(chain),
            roots.len(),
        ),
        count_fingerprints(t.facts) == chain.len() + (t.revocations.len() - (chain.len() - 1)),
        count_issuer_links(t.facts) == chain.len() + (t.revocations.len() - (chain.len() - 1)) - 1,
{
    let n = chain.len() as nat;
    lemma_walk_shape(chain, (n - 1) as nat);
    let fs = walk_upto(chain, (n - 1) as nat)->Ok_0;
    let st0 = ScanState {
        facts: fs,
        stack: int_ders(chain),
        next_id: n,
        found_issuer: false,
    };
    lemma_scan_shape(roots, members_of(chain), roots.len(), st0);
    let s = scan_upto(roots, members_of(chain), roots.len(), st0)->Ok_0;
    assert(t.revocations.len() == s.stack.len());
    assert(int_ders(chain).len() == n - 1);
}

} // verus!
