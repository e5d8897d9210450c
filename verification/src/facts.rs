use vstd::prelude::*;

use crate::digits::dec_rep;
use crate::digits::u64_to_dec;

verus! {

/// One statement of a fact document, in the order the document carries it.
#[derive(Debug, Clone, PartialEq, Eq)]
pub enum Fact {
    /// `fingerprint(cert_<id>, "<hex>").` — the certificate's SHA-256
    /// digest in upper-case hexadecimal.
    Fingerprint { id: u64, hex: String },
    /// The certificate encoder's attribute block for one certificate, kept
    /// verbatim; the leaf's block is followed by a blank line.
    Attributes { block: String, padded: bool },
    /// `issuer(cert_<subject>, cert_<issuer>).` and the blank line that
    /// closes the certificate's block.
    IssuerLink { subject: u64, issuer: u64 },
    /// A revocation-fact block from the revocation-fact generator, kept
    /// verbatim.
    Revocation { block: String },
}

/// The mathematical shape of one fact statement.
pub enum FactModel {
    Fingerprint { id: nat, hex: Seq<char> },
    Attributes { block: Seq<char>, padded: bool },
    IssuerLink { subject: nat, issuer: nat },
    Revocation { block: Seq<char> },
}

impl View for Fact {
    type V = FactModel;

    open spec fn view(&self) -> FactModel {
        match self {
            Fact::Fingerprint { id, hex } => FactModel::Fingerprint { id: *id as nat, hex: hex@ },
            Fact::Attributes { block, padded } => FactModel::Attributes {
                block: block@,
                padded: *padded,
            },
            Fact::IssuerLink { subject, issuer } => FactModel::IssuerLink {
                subject: *subject as nat,
                issuer: *issuer as nat,
            },
            Fact::Revocation { block } => FactModel::Revocation { block: block@ },
        }
    }
}

/// The models of a sequence of fact statements.
pub open spec fn facts_model(s: Seq<Fact>) -> Seq<FactModel> {
    s.map_values(|f: Fact| f@)
}

/// The text of one fact statement.
pub open spec fn fact_text(f: FactModel) -> Seq<char> {
    match f {
        FactModel::Fingerprint { id, hex } => "fingerprint(cert_"@ + dec_rep(id) + ", \""@ + hex
            + "\").\n"@,
        FactModel::Attributes { block, padded } => if padded {
            block + "\n\n"@
        } else {
            block
        },
        FactModel::IssuerLink { subject, issuer } => "issuer(cert_"@ + dec_rep(subject)
            + ", cert_"@ + dec_rep(issuer) + ").\n\n"@,
        FactModel::Revocation { block } => block,
    }
}

/// The text of a sequence of fact statements, in order.
pub open spec fn doc_text(s: Seq<FactModel>) -> Seq<char>
    decreases s.len(),
{
    if s.len() == 0 {
        Seq::empty()
    } else {
        doc_text(s.drop_last()) + fact_text(s.last())
    }
}

pub proof fn lemma_doc_text_snoc(s: Seq<FactModel>, f: FactModel)
    ensures
        doc_text(s.push(f)) == doc_text(s) + fact_text(f),
{
    assert(s.push(f).drop_last() =~= s);
    assert(s.push(f).last() == f);
}

/// How many fingerprint facts a document holds.
pub open spec fn count_fingerprints(s: Seq<FactModel>) -> nat
    decreases s.len(),
{
    if s.len() == 0 {
        0
    } else {
        count_fingerprints(s.drop_last()) + (if s.last() is Fingerprint {
            1nat
        } else {
            0nat
        })
    }
}

/// How many issuer facts a document holds.
pub open spec fn count_issuer_links(s: Seq<FactModel>) -> nat
    decreases s.len(),
{
    if s.len() == 0 {
        0
    } else {
        count_issuer_links(s.drop_last()) + (if s.last() is IssuerLink {
            1nat
        } else {
            0nat
        })
    }
}

pub proof fn lemma_counts_snoc(s: Seq<FactModel>, f: FactModel)
    ensures
        count_fingerprints(s.push(f)) == count_fingerprints(s) + (if f is Fingerprint {
            1nat
        } else {
            0nat
        }),
        count_issuer_links(s.push(f)) == count_issuer_links(s) + (if f is IssuerLink {
            1nat
        } else {
            0nat
        }),
{
    assert(s.push(f).drop_last() =~= s);
    assert(s.push(f).last() == f);
}

pub proof fn lemma_counts_concat(a: Seq<FactModel>, b: Seq<FactModel>)
    ensures
        count_fingerprints(a + b) == count_fingerprints(a) + count_fingerprints(b),
        count_issuer_links(a + b) == count_issuer_links(a) + count_issuer_links(b),
    decreases b.len(),
{
    if b.len() == 0 {
        assert(a + b =~= a);
    } else {
        lemma_counts_concat(a, b.drop_last());
        assert((a + b).drop_last() =~= a + b.drop_last());
        assert((a + b).last() == b.last());
        lemma_counts_snoc(a + b.drop_last(), b.last());
        assert(a + b =~= (a + b.drop_last()).push(b.last()));
    }
}

/// The identifiers of a document's fingerprint facts, in document order.
pub open spec fn fp_ids(s: Seq<FactModel>) -> Seq<nat>
    decreases s.len(),
{
    if s.len() == 0 {
        Seq::empty()
    } else {
        fp_ids(s.drop_last()) + (if s.last() is Fingerprint {
            seq![s.last()->Fingerprint_id]
        } else {
            Seq::<nat>::empty()
        })
    }
}

/// How many issuer facts of a document link exactly the given identifiers.
pub open spec fn count_links(s: Seq<FactModel>, subject: nat, issuer: nat) -> nat
    decreases s.len(),
{
    if s.len() == 0 {
        0
    } else {
        count_links(s.drop_last(), subject, issuer) + (if s.last() == (FactModel::IssuerLink {
            subject,
            issuer,
        }) {
            1nat
        } else {
            0nat
        })
    }
}

pub proof fn lemma_fp_ids_snoc(s: Seq<FactModel>, f: FactModel)
    ensures
        fp_ids(s.push(f)) == fp_ids(s) + (if f is Fingerprint {
            seq![f->Fingerprint_id]
        } else {
            Seq::<nat>::empty()
        }),
{
    assert(s.push(f).drop_last() =~= s);
    assert(s.push(f).last() == f);
}

pub proof fn lemma_links_snoc(s: Seq<FactModel>, f: FactModel, subject: nat, issuer: nat)
    ensures
        count_links(s.push(f), subject, issuer) == count_links(s, subject, issuer) + (if f
            == (FactModel::IssuerLink { subject, issuer }) {
            1nat
        } else {
            0nat
        }),
{
    assert(s.push(f).drop_last() =~= s);
    assert(s.push(f).last() == f);
}

pub proof fn lemma_fp_ids_concat(a: Seq<FactModel>, b: Seq<FactModel>)
    ensures
        fp_ids(a + b) == fp_ids(a) + fp_ids(b),
    decreases b.len(),
{
    if b.len() == 0 {
        assert(a + b =~= a);
        assert(fp_ids(a) + fp_ids(b) =~= fp_ids(a));
    } else {
        lemma_fp_ids_concat(a, b.drop_last());
        assert(a + b =~= (a + b.drop_last()).push(b.last()));
        lemma_fp_ids_snoc(a + b.drop_last(), b.last());
        lemma_fp_ids_snoc(b.drop_last(), b.last());
        assert(b.drop_last().push(b.last()) =~= b);
        assert(fp_ids(a + b) =~= fp_ids(a) + fp_ids(b));
    }
}

pub proof fn lemma_links_concat(a: Seq<FactModel>, b: Seq<FactModel>, subject: nat, issuer: nat)
    ensures
        count_links(a + b, subject, issuer) == count_links(a, subject, issuer) + count_links(
            b,
            subject,
            issuer,
        ),
    decreases b.len(),
{
    if b.len() == 0 {
        assert(a + b =~= a);
    } else {
        lemma_links_concat(a, b.drop_last(), subject, issuer);
        assert(a + b =~= (a + b.drop_last()).push(b.last()));
        lemma_links_snoc(a + b.drop_last(), b.last(), subject, issuer);
        lemma_links_snoc(b.drop_last(), b.last(), subject, issuer);
        assert(b.drop_last().push(b.last()) =~= b);
    }
}

/// The fixed preamble of every fact document: the module header declaring
/// each predicate the evaluator expects, and its style directive.
pub open spec fn preamble_text() -> Seq<char> {
    "
:- module(certs, [
    basicConstraintsCritical/2,
    basicConstraintsExt/2,
    certificatePolicies/2,
    certificatePoliciesCritical/2,
    certificatePoliciesExt/2,
    commonName/2,
    extendedKeyUsage/2,
    extendedKeyUsageCritical/2,
    extendedKeyUsageExt/2,
    fingerprint/2,
    inhibitAnyPolicyExt/2,
    isCA/2,
    issuer/2,
    keyAlgorithm/2,
    keyLen/2,
    keyUsage/2,
    keyUsageCritical/2,
    keyUsageExt/2,
    nameConstraintsExt/2,
    notAfter/2,
    notBefore/2,
    pathLimit/2,
    policyConstraintsExt/2,
    policyMappingsExt/3,
    san/2,
    sanCritical/2,
    sanExt/2,
    serialNumber/2,
    signatureAlgorithm/2,
    subjectKeyIdentifier/2,
    subjectKeyIdentifierCritical/2,
    subjectKeyIdentifierExt/2,
    version/2,
    ocspResponse/2,
    stapledResponse/2
]).
:-style_check(-discontiguous).\n\n"@
}

/// Replaces the attribute block standing at one position of a document,
/// keeping its padding and everything around it: how a caller fills in an
/// encoder block once the certificate's identifier is known.
pub fn set_attributes_block(facts: &mut Vec<Fact>, i: usize, block: String)
    requires
        i < old(facts)@.len(),
        old(facts)@[i as int] is Attributes,
    ensures
        facts_model(final(facts)@) == facts_model(old(facts)@).update(
            i as int,
            FactModel::Attributes {
                block: block@,
                padded: old(facts)@[i as int]@->padded,
            },
        ),
{
    let padded = match &facts[i] {
        Fact::Attributes { padded, .. } => *padded,
        _ => false,
    };
    facts.set(i, Fact::Attributes { block, padded });
    proof {
        assert(facts_model(facts@) =~= facts_model(old(facts)@).update(
            i as int,
            FactModel::Attributes { block: block@, padded: old(facts)@[i as int]@->padded },
        ));
    }
}

/// Renders a fact document: the fixed preamble, then every fact in order.
pub fn render_document(facts: &Vec<Fact>) -> (r: String)
    ensures
        r@ == preamble_text() + doc_text(facts_model(facts@)),
{
    let mut s = String::from_str(
        "
:- module(certs, [
    basicConstraintsCritical/2,
    basicConstraintsExt/2,
    certificatePolicies/2,
    certificatePoliciesCritical/2,
    certificatePoliciesExt/2,
    commonName/2,
    extendedKeyUsage/2,
    extendedKeyUsageCritical/2,
    extendedKeyUsageExt/2,
    fingerprint/2,
    inhibitAnyPolicyExt/2,
    isCA/2,
    issuer/2,
    keyAlgorithm/2,
    keyLen/2,
    keyUsage/2,
    keyUsageCritical/2,
    keyUsageExt/2,
    nameConstraintsExt/2,
    notAfter/2,
    notBefore/2,
    pathLimit/2,
    policyConstraintsExt/2,
    policyMappingsExt/3,
    san/2,
    sanCritical/2,
    sanExt/2,
    serialNumber/2,
    signatureAlgorithm/2,
    subjectKeyIdentifier/2,
    subjectKeyIdentifierCritical/2,
    subjectKeyIdentifierExt/2,
    version/2,
    ocspResponse/2,
    stapledResponse/2
]).
:-style_check(-discontiguous).\n\n",
    );
    proof {
        assert(s@ == preamble_text());
        assert(facts_model(facts@).take(0) =~= Seq::<FactModel>::empty());
    }
    let mut i: usize = 0;
    while i < facts.len()
        invariant
            i <= facts@.len(),
            s@ == preamble_text() + doc_text(facts_model(facts@).take(i as int)),
        decreases facts@.len() - i,
    {
        let ghost pre = s@;
        let ghost m = facts_model(facts@);
        match &facts[i] {
            Fact::Fingerprint { id, hex } => {
                s.append("fingerprint(cert_");
                let d = u64_to_dec(*id);
                s.append(d.as_str());
                s.append(", \"");
                s.append(hex.as_str());
                s.append("\").\n");
                proof {
                    assert(s@ =~= pre + fact_text(m[i as int]));
                }
            },
            Fact::Attributes { block, padded } => {
                s.append(block.as_str());
                if *padded {
                    s.append("\n\n");
                }
                proof {
                    assert(s@ =~= pre + fact_text(m[i as int]));
                }
            },
            Fact::IssuerLink { subject, issuer } => {
                s.append("issuer(cert_");
                let d1 = u64_to_dec(*subject);
                s.append(d1.as_str());
                s.append(", cert_");
                let d2 = u64_to_dec(*issuer);
                s.append(d2.as_str());
                s.append(").\n\n");
                proof {
                    assert(s@ =~= pre + fact_text(m[i as int]));
                }
            },
            Fact::Revocation { block } => {
                s.append(block.as_str());
                proof {
                    assert(s@ =~= pre + fact_text(m[i as int]));
                }
            },
        }
        proof {
            assert(m.take(i + 1) =~= m.take(i as int).push(m[i as int]));
            lemma_doc_text_snoc(m.take(i as int), m[i as int]);
            assert(s@ =~= preamble_text() + doc_text(m.take(i + 1)));
        }
        i += 1;
    }
    proof {
        assert(facts_model(facts@).take(i as int) =~= facts_model(facts@));
    }
    s
}

} // verus!
