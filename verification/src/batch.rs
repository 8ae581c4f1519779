//! The batch-operation engine's decision core.
//!
//! A batch run takes one operation, a list of targets and (where needed) a
//! password; before any work begins, the targets are partitioned into the
//! eligible ones and the ones already in the target state, and the partition
//! is reported verbatim. The surrounding driver fans the eligible targets
//! out to a bounded worker pool — one target's failure never aborts another
//! — and folds per-target outcomes into a final success/failure tally.
//! Everything here is pure decision logic over names and outcomes; the file
//! work itself stays with the driver.

use crate::checksum::{is_sidecar, is_sidecar_name, sidecar_name, sidecar_name_of};
use crate::crypto::{has_suffix, is_encrypted_path};
use crate::text::eq_str;
use crate::VaultError;
use vstd::prelude::*;
use vstd::string::*;

verus! {

/// The kind of a batch operation.
#[derive(Clone, Copy, Debug, PartialEq, Eq, Structural)]
pub enum OperationKind {
    Verify,
    Encrypt,
    Decrypt,
    Normalize,
}

/// Whether the operation needs a non-empty password before any file is
/// touched. Verify and Normalize never look at a password.
pub open spec fn requires_password_spec(op: OperationKind) -> bool {
    op == OperationKind::Encrypt || op == OperationKind::Decrypt
}

/// Whether the operation needs a non-empty password.
pub fn requires_password(op: OperationKind) -> (r: bool)
    ensures
        r == requires_password_spec(op),
{
    matches!(op, OperationKind::Encrypt | OperationKind::Decrypt)
}

/// Whether a target is eligible for the operation, rather than already in
/// the target state: encryption skips paths already carrying the reserved
/// suffix, decryption skips paths not carrying it, and both skip checksum
/// sidecars.
pub open spec fn eligible(op: OperationKind, target: Seq<char>) -> bool {
    match op {
        OperationKind::Encrypt => !is_sidecar_name(target) && !has_suffix(target),
        OperationKind::Decrypt => !is_sidecar_name(target) && has_suffix(target),
        OperationKind::Verify => true,
        OperationKind::Normalize => true,
    }
}

/// Whether a target is eligible for the operation.
pub fn is_eligible(op: OperationKind, target: &str) -> (r: bool)
    ensures
        r == eligible(op, target@),
{
    match op {
        OperationKind::Encrypt => !is_sidecar(target) && !is_encrypted_path(target),
        OperationKind::Decrypt => !is_sidecar(target) && is_encrypted_path(target),
        OperationKind::Verify => true,
        OperationKind::Normalize => true,
    }
}

/// Splits the targets, in input order and before any work begins, into the
/// eligible ones and the excluded ones; the partition is handed back
/// verbatim so the caller can report the excluded list literally.
pub fn partition(op: OperationKind, targets: &Vec<String>) -> (r: (Vec<String>, Vec<String>))
    ensures
        r.0.deep_view() == targets.deep_view().filter(|t: Seq<char>| eligible(op, t)),
        r.1.deep_view() == targets.deep_view().filter(|t: Seq<char>| !eligible(op, t)),
{
    let ghost keep = |t: Seq<char>| eligible(op, t);
    let ghost skip = |t: Seq<char>| !eligible(op, t);
    let mut included: Vec<String> = Vec::new();
    let mut excluded: Vec<String> = Vec::new();
    let mut i: usize = 0;
    proof {
        reveal(Seq::filter);
        assert(targets.deep_view().subrange(0, 0) =~= Seq::<Seq<char>>::empty());
    }
    while i < targets.len()
        invariant
            i <= targets.len(),
            included.deep_view() == targets.deep_view().subrange(0, i as int).filter(keep),
            excluded.deep_view() == targets.deep_view().subrange(0, i as int).filter(skip),
            keep == (|t: Seq<char>| eligible(op, t)),
            skip == (|t: Seq<char>| !eligible(op, t)),
        decreases targets.len() - i,
    {
        let t = &targets[i];
        let ghost dv = targets.deep_view();
        let ghost pref = dv.subrange(0, i as int);
        let ghost old_inc = included.deep_view();
        let ghost old_exc = excluded.deep_view();
        if is_eligible(op, t.as_str()) {
            included.push(t.clone());
        } else {
            excluded.push(t.clone());
        }
        proof {
            reveal(Seq::filter);
            assert(dv.subrange(0, i + 1) =~= pref.push(dv[i as int]));
            assert(pref.push(dv[i as int]).drop_last() =~= pref);
            assert(dv[i as int] == t@);
            if eligible(op, t@) {
                assert(included.deep_view() =~~= old_inc.push(t@));
            } else {
                assert(excluded.deep_view() =~~= old_exc.push(t@));
            }
        }
        i += 1;
    }
    proof {
        assert(targets.deep_view().subrange(0, targets.len() as int) =~= targets.deep_view());
    }
    (included, excluded)
}

/// Whether some file in the listing has exactly this name.
fn contains_name(files: &Vec<String>, name: &str) -> (r: bool)
    ensures
        r == files.deep_view().contains(name@),
{
    let mut i: usize = 0;
    while i < files.len()
        invariant
            i <= files.len(),
            forall|k: int| 0 <= k < i ==> files.deep_view()[k] != name@,
        decreases files.len() - i,
    {
        if eq_str(files[i].as_str(), name) {
            proof {
                assert(files.deep_view()[i as int] == name@);
            }
            return true;
        }
        i += 1;
    }
    false
}

/// What a verify run over one directory must do: which files are checksum
/// sidecars (each to be validated), and which subjects lack a sidecar (the
/// "missing checksum" report, neither a success nor a failure).
pub struct VerifyPlan {
    /// The sidecars found, in listing order.
    pub sidecars: Vec<String>,
    /// The non-sidecar files with no corresponding sidecar in the listing.
    pub missing: Vec<String>,
}

/// Plans a verify run over a directory listing: separates sidecars from
/// subjects and computes the subjects lacking a sidecar.
pub fn plan_verify(files: &Vec<String>) -> (r: VerifyPlan)
    ensures
        r.sidecars.deep_view() == files.deep_view().filter(|f: Seq<char>| is_sidecar_name(f)),
        r.missing.deep_view() == files.deep_view().filter(
            |f: Seq<char>|
                !is_sidecar_name(f) && !files.deep_view().contains(sidecar_name_of(f)),
        ),
{
    let ghost dv = files.deep_view();
    let ghost side = |f: Seq<char>| is_sidecar_name(f);
    let ghost miss = |f: Seq<char>| !is_sidecar_name(f) && !dv.contains(sidecar_name_of(f));
    let mut sidecars: Vec<String> = Vec::new();
    let mut missing: Vec<String> = Vec::new();
    let mut i: usize = 0;
    proof {
        reveal(Seq::filter);
        assert(dv.subrange(0, 0) =~= Seq::<Seq<char>>::empty());
    }
    while i < files.len()
        invariant
            i <= files.len(),
            dv == files.deep_view(),
            sidecars.deep_view() == dv.subrange(0, i as int).filter(side),
            missing.deep_view() == dv.subrange(0, i as int).filter(miss),
            side == (|f: Seq<char>| is_sidecar_name(f)),
            miss == (|f: Seq<char>| !is_sidecar_name(f) && !dv.contains(sidecar_name_of(f))),
        decreases files.len() - i,
    {
        let f = &files[i];
        let ghost pref = dv.subrange(0, i as int);
        let ghost old_side = sidecars.deep_view();
        let ghost old_miss = missing.deep_view();
        if is_sidecar(f.as_str()) {
            sidecars.push(f.clone());
        } else {
            let guard = sidecar_name(f.as_str());
            if !contains_name(files, guard.as_str()) {
                missing.push(f.clone());
            }
        }
        proof {
            reveal(Seq::filter);
            assert(dv.subrange(0, i + 1) =~= pref.push(dv[i as int]));
            assert(pref.push(dv[i as int]).drop_last() =~= pref);
            assert(dv[i as int] == f@);
            if side(f@) {
                assert(sidecars.deep_view() =~~= old_side.push(f@));
            } else if miss(f@) {
                assert(missing.deep_view() =~~= old_miss.push(f@));
            }
        }
        i += 1;
    }
    proof {
        assert(dv.subrange(0, files.len() as int) =~= dv);
    }
    VerifyPlan { sidecars, missing }
}

/// One target's outcome in a batch report.
#[derive(Clone, Copy, Debug, PartialEq, Eq, Structural)]
pub enum Outcome {
    /// The target's work ran to completion.
    Success,
    /// The target's work failed, with the reason; the failure never aborts
    /// the rest of the batch.
    Failure(VaultError),
}

/// One target's report: the path it named and how its work ended.
pub struct TargetReport {
    /// The target path, as given.
    pub path: String,
    /// How the target's work ended.
    pub outcome: Outcome,
}

/// The number of successes among the outcomes.
pub open spec fn count_successes(s: Seq<Outcome>) -> int
    decreases s.len(),
{
    if s.len() == 0 {
        0
    } else {
        count_successes(s.drop_last()) + if s.last() == Outcome::Success {
            1int
        } else {
            0int
        }
    }
}

proof fn lemma_count_successes_bound(s: Seq<Outcome>)
    ensures
        0 <= count_successes(s) <= s.len(),
    decreases s.len(),
{
    if s.len() > 0 {
        lemma_count_successes_bound(s.drop_last());
    }
}

/// Folds a batch's outcomes into the final tally: how many targets
/// succeeded and how many failed.
pub fn tally(outcomes: &Vec<Outcome>) -> (r: (usize, usize))
    ensures
        r.0 == count_successes(outcomes@),
        r.0 + r.1 == outcomes@.len(),
{
    let mut succeeded: usize = 0;
    let mut i: usize = 0;
    proof {
        assert(outcomes@.subrange(0, 0) =~= Seq::<Outcome>::empty());
    }
    while i < outcomes.len()
        invariant
            i <= outcomes.len(),
            succeeded == count_successes(outcomes@.subrange(0, i as int)),
            succeeded <= i,
        decreases outcomes.len() - i,
    {
        proof {
            assert(outcomes@.subrange(0, i + 1).drop_last() =~= outcomes@.subrange(0, i as int));
            assert(outcomes@.subrange(0, i + 1).last() == outcomes@[i as int]);
        }
        if matches!(outcomes[i], Outcome::Success) {
            succeeded += 1;
        }
        i += 1;
    }
    proof {
        assert(outcomes@.subrange(0, outcomes.len() as int) =~= outcomes@);
    }
    (succeeded, outcomes.len() - succeeded)
}

/// One requested batch run: the operation, its targets, and the password
/// where the operation needs one.
pub struct BatchJob {
    /// The operation to run over every eligible target.
    pub operation: OperationKind,
    /// The target paths, in the order they were given.
    pub targets: Vec<String>,
    /// The password; required non-empty for Encrypt and Decrypt.
    pub password: Option<String>,
}

impl BatchJob {
    /// A job may start only when the operations that need a password have a
    /// non-empty one.
    pub open spec fn runnable(&self) -> bool {
        requires_password_spec(self.operation) ==> (self.password is Some
            && self.password->Some_0@.len() > 0)
    }

    /// Whether the job may start; a driver must refuse to touch any file
    /// otherwise.
    pub fn is_runnable(&self) -> (r: bool)
        ensures
            r == self.runnable(),
    {
        if requires_password(self.operation) {
            match &self.password {
                Some(p) => p.as_str().unicode_len() > 0,
                None => false,
            }
        } else {
            true
        }
    }
}

} // verus!
