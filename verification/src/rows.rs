use vstd::prelude::*;

use crate::digits::dec_rep;
use crate::digits::lemma_dec_rep_digits_only;
use crate::digits::lemma_dec_rep_injective;
use crate::digits::u64_to_dec;
use crate::errors::Error;
use crate::errors::error_string;
use crate::errors::spec_error_text;

verus! {

/// Whether a piece of text parses as an IPv4 or IPv6 address literal — a
/// function of the text alone.
pub uninterp spec fn ip_parses(s: Seq<char>) -> bool;

/// Relies on ipaddress::IPAddress::parse: whether the text parses as an IP
/// address literal is decided by the text alone.
#[verifier::external_body]
fn parse_ip_literal(s: &str) -> (r: bool)
    ensures
        r == ip_parses(s@),
{
    ipaddress::IPAddress::parse(s).is_ok()
}

/// What lower-casing a piece of text yields — a function of the characters
/// alone.
pub uninterp spec fn lower_of(s: Seq<char>) -> Seq<char>;

/// Relies on str::to_lowercase: the result depends on the characters alone.
#[verifier::external_body]
fn lowercase(s: &str) -> (r: String)
    ensures
        r@ == lower_of(s@),
{
    s.to_lowercase()
}

/// The output row recorded for a skipped domain: the expected fingerprint,
/// the domain unchanged, and the fixed outcome SKIPPED.
pub open spec fn skip_line_text(sha256: Seq<char>, domain: Seq<char>) -> Seq<char> {
    sha256 + ","@ + domain + ",SKIPPED\n"@
}

/// Decides whether a row's domain is an IP address literal and, where it
/// is, yields the row's output line: evaluation is skipped, the domain is
/// recorded unchanged, and the outcome is SKIPPED — always.
pub fn row_skip_line(sha256: &str, domain: &str) -> (r: Option<String>)
    ensures
        r is Some <==> ip_parses(domain@),
        r matches Some(line) ==> line@ == skip_line_text(sha256@, domain@),
{
    if parse_ip_literal(domain) {
        let mut line = String::from_str(sha256);
        line.append(",");
        line.append(domain);
        line.append(",SKIPPED\n");
        proof {
            assert(line@ =~= skip_line_text(sha256@, domain@));
        }
        Option::Some(line)
    } else {
        Option::None
    }
}

/// The textual outcome of an evaluated row: OK on acceptance, else the
/// error's textual form.
pub open spec fn outcome_text(outcome: Result<(), Error>) -> Seq<char> {
    match outcome {
        Ok(_) => "OK"@,
        Err(e) => spec_error_text(e),
    }
}

/// The output row recorded for an evaluated domain.
pub open spec fn result_line_text(
    sha256: Seq<char>,
    domain: Seq<char>,
    outcome: Result<(), Error>,
) -> Seq<char> {
    sha256 + ","@ + lower_of(domain) + ","@ + outcome_text(outcome) + "\n"@
}

/// Builds the output row for an evaluated domain: the expected fingerprint,
/// the lower-cased domain, and the outcome's textual form. The line is a
/// function of the row's own data and the verdict alone, so a partition's
/// rows come out the same however partitions are scheduled.
pub fn row_result_line(sha256: &str, domain: &str, outcome: &Result<(), Error>) -> (r: String)
    ensures
        r@ == result_line_text(sha256@, domain@, *outcome),
{
    let mut line = String::from_str(sha256);
    line.append(",");
    let lower = lowercase(domain);
    line.append(lower.as_str());
    line.append(",");
    match outcome {
        Ok(_) => {
            line.append("OK");
        },
        Err(e) => {
            let es = error_string(e);
            line.append(es.as_str());
        },
    }
    line.append("\n");
    proof {
        assert(line@ =~= result_line_text(sha256@, domain@, *outcome));
    }
    line
}

/// The job directory for one row: a pure function of the client, the
/// per-run suffix, the partition number and the worker index.
pub open spec fn job_dir_text(
    client: Seq<char>,
    suffix: Seq<char>,
    partition: nat,
    worker: nat,
) -> Seq<char> {
    "prolog/job"@ + suffix + "/"@ + client + "-"@ + dec_rep(partition) + "-"@ + dec_rep(worker)
}

/// Builds the job directory path that one row's fact document is written
/// under. The naming scheme alone keeps concurrent jobs apart; see
/// `lemma_job_dir_collision_free`.
pub fn job_dir_name(client: &str, run_suffix: &str, partition: u64, worker: u64) -> (r: String)
    ensures
        r@ == job_dir_text(client@, run_suffix@, partition as nat, worker as nat),
{
    let mut dir = String::from_str("prolog/job");
    dir.append(run_suffix);
    dir.append("/");
    dir.append(client);
    dir.append("-");
    let p = u64_to_dec(partition);
    dir.append(p.as_str());
    dir.append("-");
    let w = u64_to_dec(worker);
    dir.append(w.as_str());
    proof {
        assert(dir@ =~= job_dir_text(client@, run_suffix@, partition as nat, worker as nat));
    }
    dir
}

/// The output line one row yields, from its own data and the evaluator's
/// verdict alone: an IP-literal domain is skipped, any other is evaluated.
pub open spec fn row_line_text(
    sha256: Seq<char>,
    domain: Seq<char>,
    verdict: Result<(), Error>,
) -> Seq<char> {
    if ip_parses(domain) {
        skip_line_text(sha256, domain)
    } else {
        result_line_text(sha256, domain, verdict)
    }
}

/// The output rows of one partition: one line per input row, in order.
pub open spec fn partition_lines(
    rows: Seq<(Seq<char>, Seq<char>, Result<(), Error>)>,
) -> Seq<Seq<char>> {
    rows.map_values(
        |r: (Seq<char>, Seq<char>, Result<(), Error>)| row_line_text(r.0, r.1, r.2),
    )
}

/// A partition's row set is a function of that partition's own rows and
/// verdicts alone — one line per row, each determined by its row: no row
/// is lost, duplicated or misrouted, however partitions are scheduled
/// around it.
pub proof fn lemma_partition_lines_complete(rows: Seq<(Seq<char>, Seq<char>, Result<(), Error>)>)
    ensures
        partition_lines(rows).len() == rows.len(),
        forall|i: int|
            0 <= i < rows.len() ==> #[trigger] partition_lines(rows)[i] == row_line_text(
                rows[i].0,
                rows[i].1,
                rows[i].2,
            ),
{
}

/// The concatenated texts of a sequence of PEM blobs.
pub open spec fn concat_texts(s: Seq<Seq<char>>) -> Seq<char>
    decreases s.len(),
{
    if s.len() == 0 {
        Seq::empty()
    } else {
        concat_texts(s.drop_last()) + s.last()
    }
}

/// Joins a leaf's PEM text with its intermediates' PEM texts, leaf first:
/// the raw chain a batch row stands for.
#[verifier::loop_isolation(false)]
pub fn form_chain(leaf: &str, intermediates: &Vec<String>) -> (r: String)
    ensures
        r@ == leaf@ + concat_texts(crate::chain::string_views(intermediates@)),
{
    let ghost views = crate::chain::string_views(intermediates@);
    let mut out = String::from_str(leaf);
    let mut i: usize = 0;
    while i < intermediates.len()
        invariant
            i <= intermediates@.len(),
            out@ == leaf@ + concat_texts(views.take(i as int)),
        decreases intermediates@.len() - i,
    {
        out.append(intermediates[i].as_str());
        proof {
            assert(views.take(i + 1).drop_last() =~= views.take(i as int));
            assert(out@ =~= leaf@ + concat_texts(views.take(i + 1)));
        }
        i += 1;
    }
    proof {
        assert(views.take(views.len() as int) =~= views);
    }
    out
}

/// The file an intermediate's PEM text is read from: its identifier under
/// the intermediates directory.
pub fn intermediate_path(intpath: &str, name: &str) -> (r: String)
    ensures
        r@ == intpath@ + "/"@ + name@ + ".pem"@,
{
    let mut p = String::from_str(intpath);
    p.append("/");
    p.append(name);
    p.append(".pem");
    p
}

/// For one client and one run suffix, two distinct (partition, worker)
/// pairs never share a job directory: the naming scheme alone rules out a
/// cross-worker or cross-partition collision, with no locking anywhere.
pub proof fn lemma_job_dir_collision_free(
    client: Seq<char>,
    suffix: Seq<char>,
    p1: nat,
    w1: nat,
    p2: nat,
    w2: nat,
)
    requires
        job_dir_text(client, suffix, p1, w1) == job_dir_text(client, suffix, p2, w2),
    ensures
        p1 == p2,
        w1 == w2,
{
    reveal_strlit("-");
    let pre = "prolog/job"@ + suffix + "/"@ + client + "-"@;
    let dash = "-"@;
    assert(dash.len() == 1 && dash[0] == '-');
    let d1 = dec_rep(p1);
    let e1 = dec_rep(w1);
    let d2 = dec_rep(p2);
    let e2 = dec_rep(w2);
    let s1 = job_dir_text(client, suffix, p1, w1);
    let s2 = job_dir_text(client, suffix, p2, w2);
    assert(s1 =~= pre + d1 + dash + e1);
    assert(s2 =~= pre + d2 + dash + e2);
    lemma_dec_rep_digits_only(p1);
    lemma_dec_rep_digits_only(p2);
    lemma_dec_rep_digits_only(w1);
    lemma_dec_rep_digits_only(w2);
    let b = pre.len() as int;
    if d1.len() < d2.len() {
        let idx = b + d1.len();
        assert(s1[idx] == '-');
        assert(s2[idx] == d2[d1.len() as int]);
        assert(false);
    }
    if d2.len() < d1.len() {
        let idx = b + d2.len();
        assert(s2[idx] == '-');
        assert(s1[idx] == d1[d2.len() as int]);
        assert(false);
    }
    assert(d1.len() == d2.len());
    assert(d1 =~= d2) by {
        assert forall|i: int| 0 <= i < d1.len() implies d1[i] == d2[i] by {
            assert(s1[b + i] == d1[i]);
            assert(s2[b + i] == d2[i]);
        }
    }
    lemma_dec_rep_injective(p1, p2);
    assert(s1.len() == s2.len());
    assert(e1.len() == e2.len());
    let c = b + d1.len() + 1;
    assert(e1 =~= e2) by {
        assert forall|i: int| 0 <= i < e1.len() implies e1[i] == e2[i] by {
            assert(s1[c + i] == e1[i]);
            assert(s2[c + i] == e2[i]);
        }
    }
    lemma_dec_rep_injective(w1, w2);
}

} // verus!
