//! Decisions around `terraform graph`: which command to run, what its output means, and
//! how its error output is shown.

use vstd::prelude::*;
use vstd::string::{StringExecFns, StringSliceAdditionalSpecFns};
use vstd::utf8::*;

use crate::std_text::{
    ascii_lower_char, ascii_lowercase_chars, ascii_upper_char, ascii_uppercase_chars,
    contains_chars, lemma_encode_utf8_concat, lemma_encode_utf8_single, lossy_utf8, str_contains, str_to_lowercase, str_trim, string_from_utf8,
    string_from_utf8_lossy, trim_ws, unicode_lowercase,
};

verus! {

/// At most this many bytes of error output are shown.
pub const STDERR_CAP_BYTES: usize = 4 * 1024;

/// The largest character boundary of `b` at or below `k`.
pub open spec fn char_boundary_at_or_below(b: Seq<u8>, k: int) -> int
    decreases k,
{
    if k <= 0 {
        0
    } else if is_char_boundary(b, k) {
        k
    } else {
        char_boundary_at_or_below(b, k - 1)
    }
}

/// `t` itself when its UTF-8 encoding fits in the cap; otherwise the longest prefix whose
/// encoding fits, followed by `…`.
pub open spec fn spec_capped_text(t: Seq<char>) -> Seq<char> {
    let b = encode_utf8(t);
    if b.len() <= STDERR_CAP_BYTES {
        t
    } else {
        decode_utf8(b.subrange(0, char_boundary_at_or_below(b, STDERR_CAP_BYTES as int)))
            + seq!['\u{2026}']
    }
}

/// The error output as shown: decoded (invalid UTF-8 replaced), trimmed and capped.
pub open spec fn spec_stderr_message(stderr: Seq<u8>) -> Seq<char> {
    spec_capped_text(trim_ws(lossy_utf8(stderr)))
}

proof fn lemma_char_boundary_at_or_below(b: Seq<u8>, k: int)
    requires
        valid_utf8(b),
        0 <= k <= b.len(),
    ensures
        0 <= char_boundary_at_or_below(b, k) <= k,
        is_char_boundary(b, char_boundary_at_or_below(b, k)),
    decreases k,
{
    is_char_boundary_start_end_of_seq(b);
    if k > 0 && !is_char_boundary(b, k) {
        lemma_char_boundary_at_or_below(b, k - 1);
    }
}

/// Decodes `bytes` (replacing invalid UTF-8), trims surrounding whitespace, and caps the
/// result at `STDERR_CAP_BYTES` bytes on a character boundary, marking a cut with `…`.
pub fn cap_trimmed_stderr(bytes: &[u8]) -> (r: String)
    ensures
        r@ == spec_stderr_message(bytes@),
{
    let text = string_from_utf8_lossy(bytes);
    let trimmed = str_trim(text.as_str());
    let ghost b = trimmed.spec_bytes();
    proof {
        encode_utf8_valid_utf8(trimmed@);
    }
    if trimmed.as_bytes().len() <= STDERR_CAP_BYTES {
        return trimmed.to_owned();
    }
    let mut end = STDERR_CAP_BYTES;
    while end > 0 && !trimmed.is_char_boundary(end)
        invariant
            b == trimmed.spec_bytes(),
            end <= STDERR_CAP_BYTES < b.len(),
            char_boundary_at_or_below(b, end as int) == char_boundary_at_or_below(
                b,
                STDERR_CAP_BYTES as int,
            ),
        decreases end,
    {
        end = end - 1;
    }
    proof {
        is_char_boundary_start_end_of_seq(b);
        lemma_char_boundary_at_or_below(b, STDERR_CAP_BYTES as int);
    }
    let (prefix, _) = trimmed.split_at(end);
    proof {
        encode_utf8_decode_utf8(prefix@);
        reveal_strlit("\u{2026}");
    }
    let ellipsis = "\u{2026}";
    let out = prefix.to_owned();
    let out = out.concat(ellipsis);
    out
}

/// Lowercased error output that hints that `terraform graph` does not know `-type=plan`.
pub open spec fn spec_suggests_unsupported_plan_type_flag(lower: Seq<char>) -> bool {
    ||| contains_chars(lower, "unknown flag"@)
    ||| contains_chars(lower, "unrecognized flag"@)
    ||| contains_chars(lower, "flag provided but not defined"@)
    ||| contains_chars(lower, "invalid flag"@)
    ||| (contains_chars(lower, "-type"@) && (contains_chars(lower, "unknown"@) || contains_chars(
        lower,
        "invalid"@,
    )))
    ||| (contains_chars(lower, "type"@) && contains_chars(lower, "unsupported"@))
}

/// The hint test on error output that is already lowercased.
pub fn lowercase_suggests_unsupported_plan_type_flag(lower: &str) -> (r: bool)
    ensures
        r == spec_suggests_unsupported_plan_type_flag(lower@),
{
    str_contains(lower, "unknown flag") || str_contains(lower, "unrecognized flag")
        || str_contains(lower, "flag provided but not defined") || str_contains(
        lower,
        "invalid flag",
    ) || (str_contains(lower, "-type") && (str_contains(lower, "unknown") || str_contains(
        lower,
        "invalid",
    ))) || (str_contains(lower, "type") && str_contains(lower, "unsupported"))
}

/// Whether error output of `terraform graph -type=plan` suggests that this Terraform does
/// not support `-type=plan` (the test is made on the lowercased text).
pub fn stderr_suggests_unsupported_plan_type_flag(stderr: &str) -> (r: bool)
    ensures
        r == spec_suggests_unsupported_plan_type_flag(unicode_lowercase(stderr@)),
        is_ascii_chars(stderr@) ==> r == spec_suggests_unsupported_plan_type_flag(
            ascii_lowercase_chars(stderr@),
        ),
{
    let lower = str_to_lowercase(stderr);
    lowercase_suggests_unsupported_plan_type_flag(lower.as_str())
}

/// Why `terraform graph` gave no DOT text.
#[derive(Debug, PartialEq, Eq)]
pub enum TerraformGraphError {
    /// The command succeeded but its standard output is not UTF-8.
    StdoutNotUtf8,
    /// `terraform graph -type=plan` failed for another reason than an unknown flag.
    PlanTypeFailed { message: String },
    /// Plain `terraform graph`, tried after `-type=plan` was not understood, failed.
    GraphFailed { message: String },
}

/// What to do after `terraform graph -type=plan` has run.
#[derive(Debug)]
pub enum PlanAttemptStep {
    /// The run is over, with this result.
    Finish(Result<String, TerraformGraphError>),
    /// Run plain `terraform graph`.
    RetryWithoutPlanType,
}

/// The arguments of `terraform`: `graph -type=plan`, or plain `graph`.
pub fn terraform_graph_args(with_plan_type: bool) -> (r: Vec<&'static str>)
    ensures
        with_plan_type ==> r@.len() == 2 && r@[0]@ == "graph"@ && r@[1]@ == "-type=plan"@,
        !with_plan_type ==> r@.len() == 1 && r@[0]@ == "graph"@,
{
    let mut args: Vec<&'static str> = Vec::new();
    args.push("graph");
    if with_plan_type {
        args.push("-type=plan");
    }
    args
}

/// The standard output of a successful run, as text.
pub fn stdout_utf8(stdout: Vec<u8>) -> (r: Result<String, TerraformGraphError>)
    ensures
        r is Ok <==> valid_utf8(stdout@),
        r matches Ok(s) ==> s@ == decode_utf8(stdout@),
        r matches Err(e) ==> e == TerraformGraphError::StdoutNotUtf8,
{
    let ghost v = stdout@;
    match string_from_utf8(stdout) {
        Some(s) => {
            proof {
                encode_utf8_decode_utf8(s@);
            }
            Ok(s)
        },
        None => Err(TerraformGraphError::StdoutNotUtf8),
    }
}

/// The step after `terraform graph -type=plan` exits: its output on success; a retry
/// without `-type=plan` when its error output hints at an unknown flag; otherwise the
/// failure, with the error output as shown.
pub fn after_plan_type_attempt(success: bool, stdout: Vec<u8>, stderr: &[u8]) -> (r:
    PlanAttemptStep)
    ensures
        success ==> (r matches PlanAttemptStep::Finish(x) && (x is Ok <==> valid_utf8(stdout@))
            && (x matches Ok(s) ==> s@ == decode_utf8(stdout@)) && (x matches Err(e) ==> e
            == TerraformGraphError::StdoutNotUtf8)),
        !success && spec_suggests_unsupported_plan_type_flag(unicode_lowercase(lossy_utf8(stderr@)))
            ==> r is RetryWithoutPlanType,
        !success && !spec_suggests_unsupported_plan_type_flag(
            unicode_lowercase(lossy_utf8(stderr@)),
        ) ==> (r matches PlanAttemptStep::Finish(Err(TerraformGraphError::PlanTypeFailed {
            message,
        })) && message@ == spec_stderr_message(stderr@)),
{
    if success {
        return PlanAttemptStep::Finish(stdout_utf8(stdout));
    }
    let plan_stderr = string_from_utf8_lossy(stderr);
    if stderr_suggests_unsupported_plan_type_flag(plan_stderr.as_str()) {
        return PlanAttemptStep::RetryWithoutPlanType;
    }
    let message = cap_trimmed_stderr(stderr);
    PlanAttemptStep::Finish(Err(TerraformGraphError::PlanTypeFailed { message }))
}

/// The result after plain `terraform graph` exits: its output on success, otherwise the
/// failure with the error output as shown.
pub fn after_plain_attempt(success: bool, stdout: Vec<u8>, stderr: &[u8]) -> (r: Result<
    String,
    TerraformGraphError,
>)
    ensures
        success ==> (r is Ok <==> valid_utf8(stdout@)) && (r matches Ok(s) ==> s@ == decode_utf8(
            stdout@,
        )) && (r matches Err(e) ==> e == TerraformGraphError::StdoutNotUtf8),
        !success ==> (r matches Err(TerraformGraphError::GraphFailed { message }) && message@
            == spec_stderr_message(stderr@)),
{
    if success {
        return stdout_utf8(stdout);
    }
    let message = cap_trimmed_stderr(stderr);
    Err(TerraformGraphError::GraphFailed { message })
}

/// A shown error message takes at most `STDERR_CAP_BYTES` bytes plus the three of `…`. A
/// text that fits is shown whole; a longer one is shown as one of its prefixes followed by `…`.
pub proof fn lemma_capped_text_fits(t: Seq<char>)
    ensures
        encode_utf8(spec_capped_text(t)).len() <= STDERR_CAP_BYTES + 3,
        encode_utf8(t).len() <= STDERR_CAP_BYTES ==> spec_capped_text(t) == t,
        encode_utf8(t).len() > STDERR_CAP_BYTES ==> {
            let c = spec_capped_text(t);
            &&& c.len() >= 1
            &&& c.last() == '\u{2026}'
            &&& c.drop_last() == t.take(c.len() - 1)
        },
{
    let b = encode_utf8(t);
    if b.len() > STDERR_CAP_BYTES {
        encode_utf8_valid_utf8(t);
        encode_utf8_decode_utf8(t);
        let e = char_boundary_at_or_below(b, STDERR_CAP_BYTES as int);
        lemma_char_boundary_at_or_below(b, STDERR_CAP_BYTES as int);
        valid_utf8_split(b, e);
        decode_utf8_split(b, e);
        let p = decode_utf8(b.subrange(0, e));
        let q = decode_utf8(b.subrange(e, b.len() as int));
        assert(t == p + q);
        decode_utf8_encode_utf8(b.subrange(0, e));
        let c = p + seq!['\u{2026}'];
        lemma_encode_utf8_concat(p, seq!['\u{2026}']);
        lemma_encode_utf8_single('\u{2026}');
        assert(c.drop_last() =~= p);
        assert(t.take(p.len() as int) =~= p);
    }
}

/// The hint test ignores ASCII case: on ASCII text, which `stderr_suggests_unsupported_plan_type_flag`
/// decides by its ASCII lowercase, the text's ASCII uppercase and ASCII lowercase are ASCII
/// text again and get the same answer.
pub proof fn lemma_hint_test_ignores_ascii_case(s: Seq<char>)
    requires
        is_ascii_chars(s),
    ensures
        is_ascii_chars(ascii_uppercase_chars(s)),
        is_ascii_chars(ascii_lowercase_chars(s)),
        spec_suggests_unsupported_plan_type_flag(ascii_lowercase_chars(ascii_uppercase_chars(s)))
            == spec_suggests_unsupported_plan_type_flag(ascii_lowercase_chars(s)),
        spec_suggests_unsupported_plan_type_flag(ascii_lowercase_chars(ascii_lowercase_chars(s)))
            == spec_suggests_unsupported_plan_type_flag(ascii_lowercase_chars(s)),
{
    let up = ascii_uppercase_chars(s);
    let low = ascii_lowercase_chars(s);
    assert forall|i: int| 0 <= i < up.len() implies '\0' <= #[trigger] up[i] <= '\u{7f}' by {
        assert('\0' <= s[i] <= '\u{7f}');
    }
    assert forall|i: int| 0 <= i < low.len() implies '\0' <= #[trigger] low[i] <= '\u{7f}' by {
        assert('\0' <= s[i] <= '\u{7f}');
    }
    assert(ascii_lowercase_chars(up) =~= low) by {
        assert forall|i: int| 0 <= i < s.len() implies ascii_lower_char(ascii_upper_char(s[i]))
            == ascii_lower_char(s[i]) by {
            let c = s[i];
            if 'a' <= c <= 'z' {
                assert(ascii_upper_char(c) as u32 == c as u32 - 32);
            }
        }
    }
    assert(ascii_lowercase_chars(low) =~= low);
}

/// The hints of an unknown `-type` flag, on lowercased error output: one of `unknown flag`,
/// `unrecognized flag`, `flag provided but not defined` and `invalid flag`; or `-type` with
/// `unknown` or `invalid`; or `type` with `unsupported`. Nothing else asks for a retry; in
/// particular `invalid` alone does not.
pub proof fn lemma_hint_table(lower: Seq<char>)
    ensures
        spec_suggests_unsupported_plan_type_flag(lower) <==> {
            ||| contains_chars(lower, "unknown flag"@)
            ||| contains_chars(lower, "unrecognized flag"@)
            ||| contains_chars(lower, "flag provided but not defined"@)
            ||| contains_chars(lower, "invalid flag"@)
            ||| (contains_chars(lower, "-type"@) && contains_chars(lower, "unknown"@))
            ||| (contains_chars(lower, "-type"@) && contains_chars(lower, "invalid"@))
            ||| (contains_chars(lower, "type"@) && contains_chars(lower, "unsupported"@))
        },
        contains_chars(lower, "invalid"@) && !contains_chars(lower, "-type"@) && !contains_chars(
            lower,
            "invalid flag"@,
        ) && !contains_chars(lower, "unknown flag"@) && !contains_chars(
            lower,
            "unrecognized flag"@,
        ) && !contains_chars(lower, "flag provided but not defined"@) && !(contains_chars(
            lower,
            "type"@,
        ) && contains_chars(lower, "unsupported"@)) ==> !spec_suggests_unsupported_plan_type_flag(
            lower,
        ),
{
}

} // verus!
