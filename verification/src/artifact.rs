//! Artifact encodings: the training configuration as a human-inspectable
//! JSON record, and model parameter snapshots as a compact binary record.
//! Each format comes with a parser and a proved round trip, so whatever the
//! store writes, a later load yields the original value.

use vstd::prelude::*;
use vstd::string::StrSliceExecFns;
use crate::model::Cifar10ModelConfig;
use crate::model::LinearShape;
use crate::model::ModelRecord;
use crate::model::ModelRecordView;
use crate::model::spec_param_bytes;
use crate::training::OptimizerConfig;
use crate::training::TrainingConfig;

verus! {

/// The byte of each character of an ASCII string.
pub open spec fn ascii_bytes(s: Seq<char>) -> Seq<u8> {
    Seq::new(s.len(), |i: int| s[i] as u8)
}

/// Appends the bytes of an ASCII literal to the output buffer.
fn append_ascii(out: &mut Vec<u8>, s: &str)
    requires
        vstd::string::is_ascii(s),
    ensures
        final(out)@ == old(out)@ + ascii_bytes(s@),
{
    let mut b = s.as_bytes_vec();
    out.append(&mut b);
    proof {
        broadcast use vstd::string::is_ascii_spec_bytes;

        assert(out@ =~= old(out)@ + ascii_bytes(s@));
    }
}

/// An ASCII decimal digit.
pub open spec fn spec_is_digit(b: u8) -> bool {
    48 <= b <= 57
}

/// The canonical decimal digits of `n`, most significant first, with no
/// leading zeros.
pub open spec fn spec_digits(n: nat) -> Seq<u8>
    decreases n,
{
    if n < 10 {
        seq![(48 + n) as u8]
    } else {
        spec_digits(n / 10).push((48 + n % 10) as u8)
    }
}

/// The numeric value of a digit sequence, most significant first.
pub open spec fn spec_digits_value(s: Seq<u8>) -> int
    decreases s.len(),
{
    if s.len() == 0 {
        0
    } else {
        spec_digits_value(s.drop_last()) * 10 + (s.last() - 48)
    }
}

/// Every byte of `s` is a decimal digit.
pub open spec fn all_digits(s: Seq<u8>) -> bool {
    forall|i: int| 0 <= i < s.len() ==> spec_is_digit(#[trigger] s[i])
}

/// The canonical digits of a number are nonempty digits.
proof fn lemma_digits_wf(n: nat)
    ensures
        spec_digits(n).len() >= 1,
        all_digits(spec_digits(n)),
    decreases n,
{
    if n >= 10 {
        lemma_digits_wf(n / 10);
        assert forall|i: int| 0 <= i < spec_digits(n).len() implies spec_is_digit(
            #[trigger] spec_digits(n)[i],
        ) by {
            if i < spec_digits(n / 10).len() {
                assert(spec_digits(n)[i] == spec_digits(n / 10)[i]);
            }
        }
    }
}

/// Reading the canonical digits of `n` back yields `n`.
proof fn lemma_digits_value(n: nat)
    ensures
        spec_digits_value(spec_digits(n)) == n,
    decreases n,
{
    if n < 10 {
        assert(spec_digits(n) == seq![(48 + n) as u8]);
        assert(spec_digits(n).last() == (48 + n) as u8);
        assert((48 + n) as u8 == 48 + n);
        assert(spec_digits(n).drop_last() =~= Seq::<u8>::empty());
        assert(spec_digits_value(spec_digits(n).drop_last()) == 0);
    } else {
        lemma_digits_value(n / 10);
        assert(spec_digits(n).drop_last() =~= spec_digits(n / 10));
        assert(0 <= n % 10 < 10);
        assert((48 + n % 10) as u8 == 48 + n % 10);
        assert(spec_digits(n).last() == (48 + n % 10) as u8);
        assert(spec_digits_value(spec_digits(n)) == spec_digits_value(spec_digits(n / 10)) * 10 + (
        48 + n % 10) - 48);
        assert(n / 10 * 10 + n % 10 == n) by {
            vstd::arithmetic::div_mod::lemma_fundamental_div_mod(n as int, 10);
        };
    }
}

/// A digit sequence's value is never negative.
proof fn lemma_digits_value_nonneg(s: Seq<u8>)
    requires
        all_digits(s),
    ensures
        spec_digits_value(s) >= 0,
    decreases s.len(),
{
    if s.len() > 0 {
        assert(all_digits(s.drop_last()));
        lemma_digits_value_nonneg(s.drop_last());
    }
}

/// Extending a digit sequence never shrinks its value.
proof fn lemma_digits_value_prefix(s: Seq<u8>, m: int)
    requires
        all_digits(s),
        0 <= m <= s.len(),
    ensures
        spec_digits_value(s.take(m)) <= spec_digits_value(s),
    decreases s.len(),
{
    if m < s.len() {
        assert(all_digits(s.drop_last()));
        assert(s.take(m) =~= s.drop_last().take(m));
        lemma_digits_value_prefix(s.drop_last(), m);
        lemma_digits_value_nonneg(s.drop_last());
    } else {
        assert(s.take(m) =~= s);
    }
}

/// Where the maximal digit run starting at `i` ends.
pub open spec fn spec_digit_run_end(s: Seq<u8>, i: int) -> int
    decreases s.len() - i,
{
    if i < 0 || i >= s.len() || !spec_is_digit(s[i]) {
        i
    } else {
        spec_digit_run_end(s, i + 1)
    }
}

/// The digit run ends at the first non-digit at or after `i`.
proof fn lemma_digit_run_end_props(s: Seq<u8>, i: int)
    requires
        0 <= i <= s.len(),
    ensures
        i <= spec_digit_run_end(s, i) <= s.len(),
        forall|m: int| i <= m < spec_digit_run_end(s, i) ==> spec_is_digit(#[trigger] s[m]),
        spec_digit_run_end(s, i) == s.len() || !spec_is_digit(s[spec_digit_run_end(s, i)]),
    decreases s.len() - i,
{
    if i < s.len() && spec_is_digit(s[i]) {
        lemma_digit_run_end_props(s, i + 1);
    }
}

/// A run of `l` digits followed by a non-digit (or the end) is maximal.
proof fn lemma_digit_run_end_exact(s: Seq<u8>, i: int, l: int)
    requires
        0 <= i,
        0 <= l,
        i + l <= s.len(),
        forall|m: int| i <= m < i + l ==> spec_is_digit(#[trigger] s[m]),
        i + l == s.len() || !spec_is_digit(s[i + l]),
    ensures
        spec_digit_run_end(s, i) == i + l,
    decreases l,
{
    if l > 0 {
        lemma_digit_run_end_exact(s, i + 1, l - 1);
    }
}

/// The number a maximal digit run at `i` denotes, when there is a run and
/// its value fits an unsigned 64-bit integer.
pub open spec fn spec_parse_number(s: Seq<u8>, i: int) -> Option<(u64, int)> {
    let j = spec_digit_run_end(s, i);
    if j == i {
        None
    } else {
        let v = spec_digits_value(s.subrange(i, j));
        if v <= u64::MAX {
            Some(((v as u64), j))
        } else {
            None
        }
    }
}

/// Appends the canonical decimal digits of `n`.
fn append_u64_decimal(out: &mut Vec<u8>, n: u64)
    ensures
        final(out)@ == old(out)@ + spec_digits(n as nat),
    decreases n,
{
    if n < 10 {
        out.push(48 + n as u8);
        proof {
            assert(out@ =~= old(out)@ + spec_digits(n as nat));
        }
    } else {
        append_u64_decimal(out, n / 10);
        out.push(48 + (n % 10) as u8);
        proof {
            assert(out@ =~= old(out)@ + spec_digits(n as nat));
        }
    }
}

/// Reads the maximal digit run starting at `i`: its value and the position
/// after it, or nothing when no digit starts there or the value overflows.
fn parse_number(s: &Vec<u8>, i: usize) -> (r: Option<(u64, usize)>)
    requires
        i <= s@.len(),
    ensures
        r is Some <==> spec_parse_number(s@, i as int) is Some,
        r matches Some((v, j)) ==> spec_parse_number(s@, i as int) == Some((v, j as int)) && i <= j
            <= s@.len(),
{
    let ghost end = spec_digit_run_end(s@, i as int);
    proof {
        lemma_digit_run_end_props(s@, i as int);
    }
    if i == s.len() || !(48 <= s[i] && s[i] <= 57) {
        return None;
    }
    let mut k: usize = i;
    let mut acc: u64 = 0;
    while k < s.len() && 48 <= s[k] && s[k] <= 57
        invariant
            i <= k <= s@.len(),
            k <= end,
            end == spec_digit_run_end(s@, i as int),
            end <= s@.len(),
            forall|m: int| i <= m < end ==> spec_is_digit(#[trigger] s@[m]),
            end == s@.len() || !spec_is_digit(s@[end as int]),
            acc == spec_digits_value(s@.subrange(i as int, k as int)),
        decreases s@.len() - k,
    {
        let d = s[k] - 48;
        if acc > (u64::MAX - d as u64) / 10 {
            proof {
                let whole = s@.subrange(i as int, end as int);
                let pre = s@.subrange(i as int, k + 1);
                assert(all_digits(whole));
                assert(pre =~= whole.take(k + 1 - i));
                lemma_digits_value_prefix(whole, k + 1 - i);
                assert(pre.drop_last() =~= s@.subrange(i as int, k as int));
                assert(spec_digits_value(pre) == acc * 10 + d);
                assert(acc * 10 + d > u64::MAX) by {
                    vstd::arithmetic::div_mod::lemma_fundamental_div_mod(
                        u64::MAX - d as u64,
                        10,
                    );
                    assert(acc >= (u64::MAX - d as u64) / 10 + 1);
                    assert(acc * 10 >= ((u64::MAX - d as u64) / 10 + 1) * 10) by (
                    nonlinear_arith)
                        requires
                            acc >= (u64::MAX - d as u64) / 10 + 1,
                    ;
                };
                assert(spec_digits_value(whole) > u64::MAX);
            }
            return None;
        }
        proof {
            vstd::arithmetic::div_mod::lemma_fundamental_div_mod(u64::MAX - d as u64, 10);
            assert(acc * 10 <= ((u64::MAX - d as u64) / 10) * 10) by (nonlinear_arith)
                requires
                    acc <= (u64::MAX - d as u64) / 10,
            ;
            let pre = s@.subrange(i as int, k + 1);
            assert(pre.drop_last() =~= s@.subrange(i as int, k as int));
            assert(spec_digits_value(pre) == acc * 10 + d);
        }
        acc = acc * 10 + d as u64;
        k += 1;
    }
    proof {
        assert(k == end);
        assert(end > i);
    }
    Some((acc, k))
}

/// Where matching `lit` at position `i` ends, when `s` carries exactly
/// `lit` there.
pub open spec fn spec_match_lit(s: Seq<u8>, i: int, lit: Seq<u8>) -> Option<int> {
    if 0 <= i && i + lit.len() <= s.len() && s.subrange(i, i + lit.len()) == lit {
        Some(i + lit.len())
    } else {
        None
    }
}

/// Matches an ASCII literal at position `i`.
fn match_lit(s: &Vec<u8>, i: usize, lit: &str) -> (r: Option<usize>)
    requires
        vstd::string::is_ascii(lit),
        i <= s@.len(),
    ensures
        r is Some <==> spec_match_lit(s@, i as int, ascii_bytes(lit@)) is Some,
        r matches Some(j) ==> spec_match_lit(s@, i as int, ascii_bytes(lit@)) == Some(j as int)
            && i <= j <= s@.len(),
{
    proof {
        broadcast use vstd::string::is_ascii_spec_bytes;

    }
    let lv = lit.as_bytes_vec();
    proof {
        assert(lv@ =~= ascii_bytes(lit@));
    }
    let n = s.len();
    if n - i < lv.len() {
        return None;
    }
    let mut k: usize = 0;
    while k < lv.len()
        invariant
            lv@ == ascii_bytes(lit@),
            n == s@.len(),
            i + lv@.len() <= n,
            k <= lv@.len(),
            forall|m: int| 0 <= m < k ==> s@[i + m] == lv@[m],
        decreases lv@.len() - k,
    {
        if s[i + k] != lv[k] {
            proof {
                assert(s@.subrange(i as int, i + lv@.len())[k as int] != lv@[k as int]);
            }
            return None;
        }
        k += 1;
    }
    proof {
        assert(s@.subrange(i as int, i + lv@.len()) =~= lv@);
    }
    Some(i + lv.len())
}

/// The key that opens the record and names the class count.
pub open spec fn lit_num_classes() -> Seq<u8> {
    ascii_bytes("{\"model\":{\"num_classes\":"@)
}

/// The key of the hidden-layer width.
pub open spec fn lit_hidden_size() -> Seq<u8> {
    ascii_bytes(",\"hidden_size\":"@)
}

/// Closes the model record, fixes the optimizer choice, and names the epoch
/// count.
pub open spec fn lit_optimizer_epochs() -> Seq<u8> {
    ascii_bytes("},\"optimizer\":\"adam\",\"num_epochs\":"@)
}

/// The key of the batch size.
pub open spec fn lit_batch_size() -> Seq<u8> {
    ascii_bytes(",\"batch_size\":"@)
}

/// The key of the collation worker count.
pub open spec fn lit_num_workers() -> Seq<u8> {
    ascii_bytes(",\"num_workers\":"@)
}

/// The key of the random seed.
pub open spec fn lit_seed() -> Seq<u8> {
    ascii_bytes(",\"seed\":"@)
}

/// The key of the learning rate in millionths.
pub open spec fn lit_learning_rate() -> Seq<u8> {
    ascii_bytes(",\"learning_rate_micros\":"@)
}

/// The closing brace.
pub open spec fn lit_close() -> Seq<u8> {
    ascii_bytes("}"@)
}

/// The configuration record's canonical JSON bytes: every hyperparameter as
/// a decimal integer, the nested model record first.
pub open spec fn spec_encode_config(c: TrainingConfig) -> Seq<u8> {
    lit_num_classes() + spec_digits(c.model.num_classes as nat) + lit_hidden_size() + spec_digits(
        c.model.hidden_size as nat,
    ) + lit_optimizer_epochs() + spec_digits(c.num_epochs as nat) + lit_batch_size() + spec_digits(
        c.batch_size as nat,
    ) + lit_num_workers() + spec_digits(c.num_workers as nat) + lit_seed() + spec_digits(
        c.seed as nat,
    ) + lit_learning_rate() + spec_digits(c.learning_rate_micros as nat) + lit_close()
}

/// Every configuration literal is ASCII, and none of the literals that
/// follow a number opens with a digit.
proof fn lemma_config_lits()
    ensures
        vstd::utf8::is_ascii_chars("{\"model\":{\"num_classes\":"@),
        vstd::utf8::is_ascii_chars(",\"hidden_size\":"@),
        vstd::utf8::is_ascii_chars("},\"optimizer\":\"adam\",\"num_epochs\":"@),
        vstd::utf8::is_ascii_chars(",\"batch_size\":"@),
        vstd::utf8::is_ascii_chars(",\"num_workers\":"@),
        vstd::utf8::is_ascii_chars(",\"seed\":"@),
        vstd::utf8::is_ascii_chars(",\"learning_rate_micros\":"@),
        vstd::utf8::is_ascii_chars("}"@),
        lit_hidden_size().len() > 0 && !spec_is_digit(lit_hidden_size()[0]),
        lit_optimizer_epochs().len() > 0 && !spec_is_digit(lit_optimizer_epochs()[0]),
        lit_batch_size().len() > 0 && !spec_is_digit(lit_batch_size()[0]),
        lit_num_workers().len() > 0 && !spec_is_digit(lit_num_workers()[0]),
        lit_seed().len() > 0 && !spec_is_digit(lit_seed()[0]),
        lit_learning_rate().len() > 0 && !spec_is_digit(lit_learning_rate()[0]),
        lit_close().len() > 0 && !spec_is_digit(lit_close()[0]),
{
    reveal_strlit("{\"model\":{\"num_classes\":");
    reveal_strlit(",\"hidden_size\":");
    reveal_strlit("},\"optimizer\":\"adam\",\"num_epochs\":");
    reveal_strlit(",\"batch_size\":");
    reveal_strlit(",\"num_workers\":");
    reveal_strlit(",\"seed\":");
    reveal_strlit(",\"learning_rate_micros\":");
    reveal_strlit("}");
}

/// Serializes the configuration as its canonical JSON record.
pub fn encode_config(c: &TrainingConfig) -> (r: Vec<u8>)
    ensures
        r@ == spec_encode_config(*c),
{
    proof {
        lemma_config_lits();
    }
    let mut out: Vec<u8> = Vec::new();
    append_ascii(&mut out, "{\"model\":{\"num_classes\":");
    append_u64_decimal(&mut out, c.model.num_classes as u64);
    append_ascii(&mut out, ",\"hidden_size\":");
    append_u64_decimal(&mut out, c.model.hidden_size as u64);
    append_ascii(&mut out, "},\"optimizer\":\"adam\",\"num_epochs\":");
    append_u64_decimal(&mut out, c.num_epochs as u64);
    append_ascii(&mut out, ",\"batch_size\":");
    append_u64_decimal(&mut out, c.batch_size as u64);
    append_ascii(&mut out, ",\"num_workers\":");
    append_u64_decimal(&mut out, c.num_workers as u64);
    append_ascii(&mut out, ",\"seed\":");
    append_u64_decimal(&mut out, c.seed);
    append_ascii(&mut out, ",\"learning_rate_micros\":");
    append_u64_decimal(&mut out, c.learning_rate_micros);
    append_ascii(&mut out, "}");
    proof {
        assert(out@ =~= spec_encode_config(*c));
    }
    out
}

/// A number followed by a literal: its value and the position after the
/// literal.
pub open spec fn spec_num_then(s: Seq<u8>, i: int, lit: Seq<u8>) -> Option<(u64, int)> {
    match spec_parse_number(s, i) {
        Option::None => Option::None,
        Option::Some((v, j)) => match spec_match_lit(s, j, lit) {
            Option::None => Option::None,
            Option::Some(k) => Option::Some((v, k)),
        },
    }
}

/// The configuration a canonical JSON record denotes: exactly the grammar
/// `spec_encode_config` emits, with every field's value in range for its
/// type, and nothing after the closing brace.
pub open spec fn spec_parse_config(s: Seq<u8>) -> Option<TrainingConfig> {
    match spec_match_lit(s, 0, lit_num_classes()) {
        Option::None => Option::None,
        Option::Some(i0) => match spec_num_then(s, i0, lit_hidden_size()) {
            Option::None => Option::None,
            Option::Some((num_classes, i1)) => match spec_num_then(s, i1, lit_optimizer_epochs()) {
                Option::None => Option::None,
                Option::Some((hidden_size, i2)) => match spec_num_then(s, i2, lit_batch_size()) {
                    Option::None => Option::None,
                    Option::Some((num_epochs, i3)) => match spec_num_then(
                        s,
                        i3,
                        lit_num_workers(),
                    ) {
                        Option::None => Option::None,
                        Option::Some((batch_size, i4)) => match spec_num_then(s, i4, lit_seed()) {
                            Option::None => Option::None,
                            Option::Some((num_workers, i5)) => match spec_num_then(
                                s,
                                i5,
                                lit_learning_rate(),
                            ) {
                                Option::None => Option::None,
                                Option::Some((seed, i6)) => match spec_num_then(
                                    s,
                                    i6,
                                    lit_close(),
                                ) {
                                    Option::None => Option::None,
                                    Option::Some((learning_rate_micros, i7)) => if i7 == s.len()
                                        && num_classes <= usize::MAX as u64 && hidden_size
                                        <= usize::MAX as u64 && num_epochs <= usize::MAX as u64
                                        && batch_size <= usize::MAX as u64 && num_workers
                                        <= usize::MAX as u64 {
                                        Option::Some(
                                            TrainingConfig {
                                                model: Cifar10ModelConfig {
                                                    num_classes: num_classes as usize,
                                                    hidden_size: hidden_size as usize,
                                                },
                                                optimizer: OptimizerConfig::Adam,
                                                num_epochs: num_epochs as usize,
                                                batch_size: batch_size as usize,
                                                num_workers: num_workers as usize,
                                                seed,
                                                learning_rate_micros,
                                            },
                                        )
                                    } else {
                                        Option::None
                                    },
                                },
                            },
                        },
                    },
                },
            },
        },
    }
}

/// Matching a literal that the buffer carries verbatim succeeds.
proof fn lemma_step_lit(s: Seq<u8>, i: int, lit: Seq<u8>)
    requires
        0 <= i,
        i + lit.len() <= s.len(),
        s.subrange(i, i + lit.len()) == lit,
    ensures
        spec_match_lit(s, i, lit) == Some(i + lit.len() as int),
{
}

/// Reading a number whose canonical digits the buffer carries verbatim,
/// with no digit following them, yields that number.
proof fn lemma_step_number(s: Seq<u8>, i: int, n: u64)
    requires
        0 <= i,
        i + spec_digits(n as nat).len() <= s.len(),
        s.subrange(i, i + spec_digits(n as nat).len() as int) == spec_digits(n as nat),
        i + spec_digits(n as nat).len() == s.len() || !spec_is_digit(
            s[i + spec_digits(n as nat).len()],
        ),
    ensures
        spec_parse_number(s, i) == Some((n, i + spec_digits(n as nat).len() as int)),
{
    let d = spec_digits(n as nat);
    lemma_digits_wf(n as nat);
    assert forall|m: int| i <= m < i + d.len() implies spec_is_digit(#[trigger] s[m]) by {
        assert(s[m] == s.subrange(i, i + d.len() as int)[m - i]);
    }
    lemma_digit_run_end_exact(s, i, d.len() as int);
    lemma_digits_value(n as nat);
}

/// Saving a configuration and parsing the record back yields the original
/// configuration, field for field.
#[verifier::rlimit(60)]
pub proof fn lemma_config_roundtrip(c: TrainingConfig)
    ensures
        spec_parse_config(spec_encode_config(c)) == Some(c),
{
    lemma_config_lits();
    let s = spec_encode_config(c);
    let d1 = spec_digits(c.model.num_classes as nat);
    let d2 = spec_digits(c.model.hidden_size as nat);
    let d3 = spec_digits(c.num_epochs as nat);
    let d4 = spec_digits(c.batch_size as nat);
    let d5 = spec_digits(c.num_workers as nat);
    let d6 = spec_digits(c.seed as nat);
    let d7 = spec_digits(c.learning_rate_micros as nat);
    let p0 = lit_num_classes().len() as int;
    let q1 = p0 + d1.len();
    let p1 = q1 + lit_hidden_size().len();
    let q2 = p1 + d2.len();
    let p2 = q2 + lit_optimizer_epochs().len();
    let q3 = p2 + d3.len();
    let p3 = q3 + lit_batch_size().len();
    let q4 = p3 + d4.len();
    let p4 = q4 + lit_num_workers().len();
    let q5 = p4 + d5.len();
    let p5 = q5 + lit_seed().len();
    let q6 = p5 + d6.len();
    let p6 = q6 + lit_learning_rate().len();
    let q7 = p6 + d7.len();
    let p7 = q7 + lit_close().len();
    assert(s.len() == p7);
    assert(s.subrange(0, p0) =~= lit_num_classes());
    assert(s.subrange(p0, q1) =~= d1);
    assert(s.subrange(q1, p1) =~= lit_hidden_size());
    assert(s.subrange(p1, q2) =~= d2);
    assert(s.subrange(q2, p2) =~= lit_optimizer_epochs());
    assert(s.subrange(p2, q3) =~= d3);
    assert(s.subrange(q3, p3) =~= lit_batch_size());
    assert(s.subrange(p3, q4) =~= d4);
    assert(s.subrange(q4, p4) =~= lit_num_workers());
    assert(s.subrange(p4, q5) =~= d5);
    assert(s.subrange(q5, p5) =~= lit_seed());
    assert(s.subrange(p5, q6) =~= d6);
    assert(s.subrange(q6, p6) =~= lit_learning_rate());
    assert(s.subrange(p6, q7) =~= d7);
    assert(s.subrange(q7, p7) =~= lit_close());
    lemma_step_lit(s, 0, lit_num_classes());
    assert(s[q1] == lit_hidden_size()[0]);
    assert((c.model.num_classes as u64) as nat == c.model.num_classes as nat);
    lemma_step_number(s, p0, c.model.num_classes as u64);
    lemma_step_lit(s, q1, lit_hidden_size());
    assert(s[q2] == lit_optimizer_epochs()[0]);
    assert((c.model.hidden_size as u64) as nat == c.model.hidden_size as nat);
    lemma_step_number(s, p1, c.model.hidden_size as u64);
    lemma_step_lit(s, q2, lit_optimizer_epochs());
    assert(s[q3] == lit_batch_size()[0]);
    assert((c.num_epochs as u64) as nat == c.num_epochs as nat);
    lemma_step_number(s, p2, c.num_epochs as u64);
    lemma_step_lit(s, q3, lit_batch_size());
    assert(s[q4] == lit_num_workers()[0]);
    assert((c.batch_size as u64) as nat == c.batch_size as nat);
    lemma_step_number(s, p3, c.batch_size as u64);
    lemma_step_lit(s, q4, lit_num_workers());
    assert(s[q5] == lit_seed()[0]);
    assert((c.num_workers as u64) as nat == c.num_workers as nat);
    lemma_step_number(s, p4, c.num_workers as u64);
    lemma_step_lit(s, q5, lit_seed());
    assert(s[q6] == lit_learning_rate()[0]);
    lemma_step_number(s, p5, c.seed);
    lemma_step_lit(s, q6, lit_learning_rate());
    assert(s[q7] == lit_close()[0]);
    lemma_step_number(s, p6, c.learning_rate_micros);
    lemma_step_lit(s, q7, lit_close());
    match c.optimizer {
        OptimizerConfig::Adam => {},
    }
    assert(spec_parse_config(s) == Some(c));
}

/// A configuration record that does not match the expected schema.
#[derive(Clone, Copy, Debug, PartialEq, Eq, Structural)]
pub struct SchemaError {}

/// Parses a configuration record, accepting exactly the canonical grammar.
pub fn parse_config(s: &Vec<u8>) -> (r: Result<TrainingConfig, SchemaError>)
    ensures
        r is Ok <==> spec_parse_config(s@) is Some,
        r matches Ok(c) ==> spec_parse_config(s@) == Some(c),
{
    proof {
        lemma_config_lits();
    }
    let i0 = match match_lit(s, 0, "{\"model\":{\"num_classes\":") {
        Some(i) => i,
        None => {
            return Err(SchemaError {  });
        },
    };
    let (num_classes, j1) = match parse_number(s, i0) {
        Some(p) => p,
        None => {
            return Err(SchemaError {  });
        },
    };
    let i1 = match match_lit(s, j1, ",\"hidden_size\":") {
        Some(i) => i,
        None => {
            return Err(SchemaError {  });
        },
    };
    let (hidden_size, j2) = match parse_number(s, i1) {
        Some(p) => p,
        None => {
            return Err(SchemaError {  });
        },
    };
    let i2 = match match_lit(s, j2, "},\"optimizer\":\"adam\",\"num_epochs\":") {
        Some(i) => i,
        None => {
            return Err(SchemaError {  });
        },
    };
    let (num_epochs, j3) = match parse_number(s, i2) {
        Some(p) => p,
        None => {
            return Err(SchemaError {  });
        },
    };
    let i3 = match match_lit(s, j3, ",\"batch_size\":") {
        Some(i) => i,
        None => {
            return Err(SchemaError {  });
        },
    };
    let (batch_size, j4) = match parse_number(s, i3) {
        Some(p) => p,
        None => {
            return Err(SchemaError {  });
        },
    };
    let i4 = match match_lit(s, j4, ",\"num_workers\":") {
        Some(i) => i,
        None => {
            return Err(SchemaError {  });
        },
    };
    let (num_workers, j5) = match parse_number(s, i4) {
        Some(p) => p,
        None => {
            return Err(SchemaError {  });
        },
    };
    let i5 = match match_lit(s, j5, ",\"seed\":") {
        Some(i) => i,
        None => {
            return Err(SchemaError {  });
        },
    };
    let (seed, j6) = match parse_number(s, i5) {
        Some(p) => p,
        None => {
            return Err(SchemaError {  });
        },
    };
    let i6 = match match_lit(s, j6, ",\"learning_rate_micros\":") {
        Some(i) => i,
        None => {
            return Err(SchemaError {  });
        },
    };
    let (learning_rate_micros, j7) = match parse_number(s, i6) {
        Some(p) => p,
        None => {
            return Err(SchemaError {  });
        },
    };
    let i7 = match match_lit(s, j7, "}") {
        Some(i) => i,
        None => {
            return Err(SchemaError {  });
        },
    };
    if i7 != s.len() {
        return Err(SchemaError {  });
    }
    if num_classes > usize::MAX as u64 || hidden_size > usize::MAX as u64 || num_epochs
        > usize::MAX as u64 || batch_size > usize::MAX as u64 || num_workers > usize::MAX as u64 {
        return Err(SchemaError {  });
    }
    Ok(
        TrainingConfig {
            model: Cifar10ModelConfig {
                num_classes: num_classes as usize,
                hidden_size: hidden_size as usize,
            },
            optimizer: OptimizerConfig::Adam,
            num_epochs: num_epochs as usize,
            batch_size: batch_size as usize,
            num_workers: num_workers as usize,
            seed,
            learning_rate_micros,
        },
    )
}

/// A parameter snapshot's compact binary bytes: the four layer dimensions
/// as little-endian 64-bit integers, then the raw parameter payload. The
/// payload's length is implied by the dimensions, so nothing can be
/// silently truncated or padded.
pub open spec fn spec_encode_record(r: ModelRecordView) -> Seq<u8> {
    vstd::bytes::spec_u64_to_le_bytes(r.linear1.d_input as u64) + vstd::bytes::spec_u64_to_le_bytes(
        r.linear1.d_output as u64,
    ) + vstd::bytes::spec_u64_to_le_bytes(r.linear2.d_input as u64)
        + vstd::bytes::spec_u64_to_le_bytes(r.linear2.d_output as u64) + r.params
}

/// The snapshot a binary record denotes: four in-range dimensions, and a
/// payload of exactly the length those dimensions demand.
pub open spec fn spec_parse_record(s: Seq<u8>) -> Option<ModelRecordView> {
    if s.len() < 32 {
        Option::None
    } else {
        let a = vstd::bytes::spec_u64_from_le_bytes(s.subrange(0, 8));
        let b = vstd::bytes::spec_u64_from_le_bytes(s.subrange(8, 16));
        let c = vstd::bytes::spec_u64_from_le_bytes(s.subrange(16, 24));
        let d = vstd::bytes::spec_u64_from_le_bytes(s.subrange(24, 32));
        if a <= usize::MAX as u64 && b <= usize::MAX as u64 && c <= usize::MAX as u64 && d
            <= usize::MAX as u64 {
            let l1 = LinearShape { d_input: a as usize, d_output: b as usize };
            let l2 = LinearShape { d_input: c as usize, d_output: d as usize };
            if s.len() - 32 == spec_param_bytes(l1, l2) {
                Option::Some(ModelRecordView { linear1: l1, linear2: l2, params: s.skip(32) })
            } else {
                Option::None
            }
        } else {
            Option::None
        }
    }
}

/// Serializes a parameter snapshot as its compact binary record.
pub fn encode_record(r: &ModelRecord) -> (out: Vec<u8>)
    ensures
        out@ == spec_encode_record(r@),
{
    let mut out = vstd::bytes::u64_to_le_bytes(r.linear1.d_input as u64);
    let mut b2 = vstd::bytes::u64_to_le_bytes(r.linear1.d_output as u64);
    out.append(&mut b2);
    let mut b3 = vstd::bytes::u64_to_le_bytes(r.linear2.d_input as u64);
    out.append(&mut b3);
    let mut b4 = vstd::bytes::u64_to_le_bytes(r.linear2.d_output as u64);
    out.append(&mut b4);
    let ghost head = out@;
    let mut k: usize = 0;
    while k < r.params.len()
        invariant
            k <= r.params@.len(),
            out@ == head + r.params@.take(k as int),
        decreases r.params@.len() - k,
    {
        out.push(r.params[k]);
        proof {
            assert(r.params@.take(k + 1) =~= r.params@.take(k as int).push(r.params@[k as int]));
            assert(out@ =~= head + r.params@.take(k + 1));
        }
        k += 1;
    }
    proof {
        assert(r.params@.take(r.params@.len() as int) =~= r.params@);
        assert(out@ =~= spec_encode_record(r@));
    }
    out
}

/// Parses a parameter snapshot record, accepting exactly the records whose
/// payload length matches their declared dimensions.
pub fn parse_record(s: &Vec<u8>) -> (r: Result<ModelRecord, SchemaError>)
    ensures
        r is Ok <==> spec_parse_record(s@) is Some,
        r matches Ok(rec) ==> Some(rec@) == spec_parse_record(s@) && rec.wf(),
{
    let n = s.len();
    if n < 32 {
        return Err(SchemaError {  });
    }
    let a = vstd::bytes::u64_from_le_bytes(vstd::slice::slice_subrange(s.as_slice(), 0, 8));
    let b = vstd::bytes::u64_from_le_bytes(vstd::slice::slice_subrange(s.as_slice(), 8, 16));
    let c = vstd::bytes::u64_from_le_bytes(vstd::slice::slice_subrange(s.as_slice(), 16, 24));
    let d = vstd::bytes::u64_from_le_bytes(vstd::slice::slice_subrange(s.as_slice(), 24, 32));
    if a > usize::MAX as u64 || b > usize::MAX as u64 || c > usize::MAX as u64 || d
        > usize::MAX as u64 {
        return Err(SchemaError {  });
    }
    let l1 = LinearShape { d_input: a as usize, d_output: b as usize };
    let l2 = LinearShape { d_input: c as usize, d_output: d as usize };
    proof {
        assert((a as int) * (b as int) <= (u64::MAX as int) * (u64::MAX as int) && (c as int) * (d
            as int) <= (u64::MAX as int) * (u64::MAX as int)) by (nonlinear_arith)
            requires
                0 <= a <= u64::MAX,
                0 <= b <= u64::MAX,
                0 <= c <= u64::MAX,
                0 <= d <= u64::MAX,
        ;
        assert((u64::MAX as int) * (u64::MAX as int) < u128::MAX as int) by (nonlinear_arith);
    }
    let ab: u128 = (a as u128) * (b as u128);
    let cd: u128 = (c as u128) * (d as u128);
    proof {
        assert(spec_param_bytes(l1, l2) == 4 * ((a as int) * (b as int) + b + (c as int) * (d
            as int) + d));
        assert((a as int) * (b as int) >= 0 && (c as int) * (d as int) >= 0) by (nonlinear_arith);
    }
    if ab > usize::MAX as u128 || cd > usize::MAX as u128 {
        return Err(SchemaError {  });
    }
    let total: u128 = 4 * (ab + (b as u128) + cd + (d as u128));
    if total != (n - 32) as u128 {
        return Err(SchemaError {  });
    }
    let mut params: Vec<u8> = Vec::new();
    let mut k: usize = 32;
    while k < n
        invariant
            32 <= k <= n,
            n == s@.len(),
            params@ == s@.subrange(32, k as int),
        decreases n - k,
    {
        params.push(s[k]);
        proof {
            assert(s@.subrange(32, k + 1) =~= s@.subrange(32, k as int).push(s@[k as int]));
        }
        k += 1;
    }
    let rec = ModelRecord { linear1: l1, linear2: l2, params };
    proof {
        assert(rec@.params =~= s@.skip(32));
        assert(Some(rec@) == spec_parse_record(s@));
    }
    Ok(rec)
}

/// Saving a parameter snapshot and parsing the record back yields the
/// original snapshot: the same shapes and the same payload bytes.
pub proof fn lemma_record_roundtrip(r: ModelRecordView)
    requires
        r.wf(),
    ensures
        spec_parse_record(spec_encode_record(r)) == Some(r),
{
    vstd::bytes::lemma_auto_spec_u64_to_from_le_bytes();
    let s = spec_encode_record(r);
    let b1 = vstd::bytes::spec_u64_to_le_bytes(r.linear1.d_input as u64);
    let b2 = vstd::bytes::spec_u64_to_le_bytes(r.linear1.d_output as u64);
    let b3 = vstd::bytes::spec_u64_to_le_bytes(r.linear2.d_input as u64);
    let b4 = vstd::bytes::spec_u64_to_le_bytes(r.linear2.d_output as u64);
    assert(s.subrange(0, 8) =~= b1);
    assert(s.subrange(8, 16) =~= b2);
    assert(s.subrange(16, 24) =~= b3);
    assert(s.subrange(24, 32) =~= b4);
    assert(s.skip(32) =~= r.params);
    assert(spec_parse_record(s) == Some(r));
}

} // verus!
