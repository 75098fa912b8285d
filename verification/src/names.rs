//! Harness names: normalization (trim, length check), unique numbering of
//! a name among the other harnesses, and the decision behind a rename.
use crate::error::{CoreError, ErrorView};
use crate::text::{char_count, decimal, trim, trim_str, u64_to_decimal};
use crate::validate::{err, error_issue, IssueCode, ValidationIssue};
use vstd::prelude::*;
use vstd::string::*;

verus! {

/// Maximum length of a harness name, in characters after trimming.
pub const MAX_HARNESS_NAME_CHARS: usize = 64;

/// The validation error for a name: one error issue with `code` and
/// `message`.
pub open spec fn name_error(code: IssueCode, message: Seq<char>) -> ErrorView {
    ErrorView::Validation(seq![error_issue(code, message, None)])
}

/// The normalized harness name, or the validation error for it.
pub open spec fn harness_name_result(name: Seq<char>) -> Result<Seq<char>, ErrorView> {
    let t = trim(name);
    if t.len() == 0 {
        Err(name_error(IssueCode::InvalidHarnessName, "ハーネス名を入力してください"@))
    } else if t.len() > 64 {
        Err(name_error(IssueCode::InvalidHarnessName, "ハーネス名は64文字以内にしてください"@))
    } else {
        Ok(t)
    }
}

/// Whether `r` is the name or the error `s` describes.
pub open spec fn result_matches(r: Result<String, CoreError>, s: Result<Seq<char>, ErrorView>) -> bool {
    match s {
        Ok(n) => r matches Ok(x) && x@ == n,
        Err(e) => r matches Err(x) && x@ == e,
    }
}

/// A validation error for a harness name, carrying one issue with `message`.
pub fn validation(message: &str) -> (r: CoreError)
    ensures
        r@ == name_error(IssueCode::InvalidHarnessName, message@),
{
    let mut issues: Vec<ValidationIssue> = Vec::new();
    issues.push(err(IssueCode::InvalidHarnessName, String::from_str(message), None));
    let r = CoreError::Validation(issues);
    assert(r@ == name_error(IssueCode::InvalidHarnessName, message@)) by {
        assert(crate::validate::issues_view(issues@) =~= seq![error_issue(IssueCode::InvalidHarnessName, message@, None)]);
    }
    r
}

/// Trims a harness name and checks that 1 to 64 characters remain.
pub fn normalize_name(name: &str) -> (r: Result<String, CoreError>)
    ensures
        result_matches(r, harness_name_result(name@)),
{
    let trimmed = trim_str(name);
    let n = char_count(trimmed.as_str());
    if n == 0 {
        return Err(validation("ハーネス名を入力してください"));
    }
    if n > MAX_HARNESS_NAME_CHARS {
        return Err(validation("ハーネス名は64文字以内にしてください"));
    }
    Ok(trimmed)
}


// ---------------------------------------------------------------------------
// Unique numbering
// ---------------------------------------------------------------------------
/// `desired (n)`.
pub open spec fn numbered(desired: Seq<char>, n: nat) -> Seq<char> {
    desired + " ("@ + decimal(n) + ")"@
}

/// The least `n >= 2` whose numbered name is free.
pub open spec fn least_free(existing: Seq<Seq<char>>, desired: Seq<char>) -> nat {
    choose|n: nat|
        n >= 2 && !existing.contains(numbered(desired, n)) && forall|m: nat|
            2 <= m < n ==> existing.contains(#[trigger] numbered(desired, m))
}

/// The name that `desired` resolves to among `existing`: itself when free,
/// otherwise `desired (n)` for the least `n >= 2` that is free.
pub open spec fn unique_name(existing: Seq<Seq<char>>, desired: Seq<char>) -> Seq<char> {
    if !existing.contains(desired) {
        desired
    } else {
        numbered(desired, least_free(existing, desired))
    }
}

pub open spec fn names_view(v: Seq<String>) -> Seq<Seq<char>> {
    v.map_values(|s: String| s@)
}

proof fn lemma_decimal_nonempty(n: nat)
    ensures
        decimal(n).len() >= 1,
        n >= 10 ==> decimal(n).len() >= 2,
    decreases n,
{
    if n >= 10 {
        lemma_decimal_nonempty(n / 10);
    }
}

proof fn lemma_digit_injective(a: nat, b: nat)
    requires
        a < 10,
        b < 10,
        crate::text::digit_char(a) == crate::text::digit_char(b),
    ensures
        a == b,
{
}

/// Distinct numbers have distinct decimal renderings.
pub proof fn lemma_decimal_injective(a: nat, b: nat)
    requires
        decimal(a) == decimal(b),
    ensures
        a == b,
    decreases a + b,
{
    lemma_decimal_nonempty(a);
    lemma_decimal_nonempty(b);
    if a < 10 && b < 10 {
        assert(decimal(a)[0] == crate::text::digit_char(a));
        assert(decimal(b)[0] == crate::text::digit_char(b));
        lemma_digit_injective(a, b);
    } else if a >= 10 && b >= 10 {
        let da = decimal(a);
        let db = decimal(b);
        assert(da.last() == db.last());
        lemma_digit_injective(a % 10, b % 10);
        assert(da.drop_last() =~= decimal(a / 10));
        assert(db.drop_last() =~= decimal(b / 10));
        lemma_decimal_injective(a / 10, b / 10);
    } else {
        assert(decimal(a).len() != decimal(b).len());
    }
}

proof fn lemma_numbered_injective(d: Seq<char>, a: nat, b: nat)
    requires
        numbered(d, a) == numbered(d, b),
    ensures
        a == b,
{
    reveal_strlit(" (");
    reveal_strlit(")");
    let x = numbered(d, a);
    let y = numbered(d, b);
    assert(x.len() == y.len());
    let k = d.len() + 2;
    assert(x.subrange(k as int, x.len() - 1) =~= decimal(a));
    assert(y.subrange(k as int, y.len() - 1) =~= decimal(b));
    lemma_decimal_injective(a, b);
}

proof fn lemma_distinct_bound(a: Seq<Seq<char>>, b: Seq<Seq<char>>)
    requires
        a.no_duplicates(),
        forall|i: int| 0 <= i < a.len() ==> b.contains(#[trigger] a[i]),
    ensures
        a.len() <= b.len(),
{
    a.unique_seq_to_set();
    b.lemma_cardinality_of_set();
    vstd::seq_lib::seq_to_set_is_finite(b);
    assert(a.to_set().subset_of(b.to_set())) by {
        assert forall|x: Seq<char>| a.to_set().contains(x) implies b.to_set().contains(x) by {
            let i = choose|i: int| 0 <= i < a.len() && a[i] == x;
            assert(b.contains(a[i]));
        }
    }
    vstd::set_lib::lemma_len_subset(a.to_set(), b.to_set());
}

fn contains_name(existing: &[String], name: &String) -> (r: bool)
    ensures
        r == names_view(existing@).contains(name@),
{
    let mut i: usize = 0;
    while i < existing.len()
        invariant
            i <= existing.len(),
            forall|j: int| 0 <= j < i ==> (#[trigger] existing@[j])@ != name@,
        decreases existing.len() - i,
    {
        if existing[i] == *name {
            assert(names_view(existing@)[i as int] == name@);
            return true;
        }
        i = i + 1;
    }
    proof {
        if names_view(existing@).contains(name@) {
            let k = choose|k: int| 0 <= k < names_view(existing@).len() && names_view(existing@)[k] == name@;
            assert(existing@[k]@ == name@);
        }
    }
    false
}

fn numbered_name(desired: &str, n: usize) -> (r: String)
    ensures
        r@ == numbered(desired@, n as nat),
{
    let mut r = String::from_str(desired);
    r.append(" (");
    let d = u64_to_decimal(n as u64);
    r.append(d.as_str());
    r.append(")");
    r
}

/// Returns `desired` when no name in `existing` equals it; otherwise
/// `desired (n)` for the least `n >= 2` whose result is not in `existing`.
/// Callers leave the renamed harness itself out of `existing`.
pub fn resolve_unique_name(existing: &[String], desired: &str) -> (r: String)
    requires
        existing@.len() + 2 <= usize::MAX,
    ensures
        r@ == unique_name(names_view(existing@), desired@),
        !names_view(existing@).contains(r@),
{
    let ghost ex = names_view(existing@);
    let want = String::from_str(desired);
    if !contains_name(existing, &want) {
        return want;
    }
    assert(ex.contains(desired@));
    let mut n: usize = 2;
    loop
        invariant
            ex == names_view(existing@),
            ex.contains(desired@),
            existing@.len() + 2 <= usize::MAX,
            2 <= n <= existing@.len() + 2,
            forall|m: nat| 2 <= m < n ==> ex.contains(#[trigger] numbered(desired@, m)),
        decreases existing@.len() + 2 - n,
    {
        let candidate = numbered_name(desired, n);
        if !contains_name(existing, &candidate) {
            proof {
                let k = least_free(ex, desired@);
                assert(n >= 2 && !ex.contains(numbered(desired@, n as nat)) && forall|m: nat|
                    2 <= m < n ==> ex.contains(#[trigger] numbered(desired@, m)));
                assert(k >= 2 && !ex.contains(numbered(desired@, k)) && forall|m: nat|
                    2 <= m < k ==> ex.contains(#[trigger] numbered(desired@, m)));
                if k < n {
                    assert(ex.contains(numbered(desired@, k)));
                }
                if n < k {
                    assert(ex.contains(numbered(desired@, n as nat)));
                }
            }
            return candidate;
        }
        proof {
            let upto = Seq::new((n - 1) as nat, |i: int| numbered(desired@, (i + 2) as nat));
            assert forall|i: int, j: int| 0 <= i < upto.len() && 0 <= j < upto.len() && i != j
                implies upto[i] != upto[j] by {
                if upto[i] == upto[j] {
                    lemma_numbered_injective(desired@, (i + 2) as nat, (j + 2) as nat);
                }
            }
            assert forall|i: int| 0 <= i < upto.len() implies ex.contains(#[trigger] upto[i]) by {
                let m = (i + 2) as nat;
                if m < n {
                    assert(ex.contains(numbered(desired@, m)));
                }
            }
            lemma_distinct_bound(upto, ex);
        }
        n = n + 1;
    }
}

// ---------------------------------------------------------------------------
// Renaming a harness
// ---------------------------------------------------------------------------
/// The name a harness rename settles on, or the error it fails with.
pub open spec fn rename_result(found: bool, others: Seq<Seq<char>>, harness_id: Seq<char>, desired: Seq<char>) -> Result<Seq<char>, ErrorView> {
    if !found {
        Err(ErrorView::NotFound(harness_id))
    } else {
        match harness_name_result(desired) {
            Err(e) => Err(e),
            Ok(n) => Ok(unique_name(others, n)),
        }
    }
}

/// The names of the heads other than `harness_id`, in order: the names a
/// rename must not take.
pub fn other_names(heads: &Vec<crate::domain::Harness>, harness_id: &str) -> (r: Vec<String>)
    ensures
        names_view(r@) == others_of(heads@.map_values(|h: crate::domain::Harness| h@), harness_id@),
{
    let ghost hv = heads@.map_values(|h: crate::domain::Harness| h@);
    let mut out: Vec<String> = Vec::new();
    let mut i: usize = 0;
    while i < heads.len()
        invariant
            hv == heads@.map_values(|h: crate::domain::Harness| h@),
            i <= heads.len(),
            names_view(out@) == others_of(hv.take(i as int), harness_id@),
        decreases heads.len() - i,
    {
        let ghost before = names_view(out@);
        assert(hv.take(i + 1).drop_last() =~= hv.take(i as int));
        assert(hv.take(i + 1).last() == hv[i as int]);
        assert(hv[i as int] == heads@[i as int]@);
        if !crate::text::str_eq(heads[i].id.as_str(), harness_id) {
            out.push(heads[i].name.clone());
            assert(names_view(out@) =~= before.push(hv[i as int].name));
        } else {
            assert(names_view(out@) =~= before);
        }
        i = i + 1;
    }
    assert(hv.take(i as int) =~= hv);
    out
}

/// The names of the heads whose id is not `id`, in order.
pub open spec fn others_of(hs: Seq<crate::domain::HarnessView>, id: Seq<char>) -> Seq<Seq<char>>
    decreases hs.len(),
{
    if hs.len() == 0 {
        seq![]
    } else {
        others_of(hs.drop_last(), id) + if hs.last().id == id {
            seq![]
        } else {
            seq![hs.last().name]
        }
    }
}

/// Decides a harness rename: not found when the harness does not exist,
/// the name-validation error when the normalized name is empty or too long,
/// otherwise the normalized name made unique among `others` (the names of the
/// other live harnesses).
pub fn prepare_rename_harness(found: bool, others: &[String], harness_id: &str, desired_name: &str) -> (r: Result<String, CoreError>)
    requires
        others@.len() + 2 <= usize::MAX,
    ensures
        result_matches(r, rename_result(found, names_view(others@), harness_id@, desired_name@)),
{
    if !found {
        return Err(CoreError::NotFound(String::from_str(harness_id)));
    }
    let desired = match normalize_name(desired_name) {
        Ok(n) => n,
        Err(e) => return Err(e),
    };
    Ok(resolve_unique_name(others, desired.as_str()))
}

} // verus!
