//! The textual exchange format for job records.
//!
//! A record is stored as one self-describing line of text with exactly three
//! fields: the job name, the argument payload, and the retry state, e.g.
//! `{"name":"send_email","args":"{}","retry_count":"NeverRetried"}` or
//! `{"name":"x","args":"","retry_count":{"Count":3}}`. Quotes and backslashes
//! inside `name` and `args` are escaped with a backslash. [`serialize_job`]
//! produces exactly [`spec_encode_job`]; [`deserialize_job`] is proved to give
//! back the encoded record, so the format round-trips without loss. On read
//! the fields may come in any order, each at most once, and unknown
//! additional fields are ignored.

use vstd::prelude::*;
use vstd::string::StrSliceExecFns;
use vstd::arithmetic::div_mod::lemma_fundamental_div_mod;
use crate::jobs::{EnqueuedJob, EnqueuedJobView, RetryCount};
use crate::queues::Error;

verus! {

// ---------------------------------------------------------------------------
// The shape of the encoding, as sequences of characters.
// ---------------------------------------------------------------------------
/// The opening of a record up to the name's value: `{"name":"`.
pub open spec fn lit_name() -> Seq<char> {
    seq!['{', '"', 'n', 'a', 'm', 'e', '"', ':', '"']
}

/// Between the name's closing quote and the args value: `,"args":"`.
pub open spec fn lit_args() -> Seq<char> {
    seq![',', '"', 'a', 'r', 'g', 's', '"', ':', '"']
}

/// Between the args' closing quote and the retry state: `,"retry_count":`.
pub open spec fn lit_retry() -> Seq<char> {
    seq![',', '"', 'r', 'e', 't', 'r', 'y', '_', 'c', 'o', 'u', 'n', 't', '"', ':']
}

/// The retry state of a job never retried: `"NeverRetried"`.
pub open spec fn lit_never() -> Seq<char> {
    seq!['"', 'N', 'e', 'v', 'e', 'r', 'R', 'e', 't', 'r', 'i', 'e', 'd', '"']
}

/// The opening of a counted retry state: `{"Count":`.
pub open spec fn lit_count() -> Seq<char> {
    seq!['{', '"', 'C', 'o', 'u', 'n', 't', '"', ':']
}

/// How one character is written inside a quoted string.
pub open spec fn escape1(c: char) -> Seq<char> {
    if c == '"' {
        seq!['\\', '"']
    } else if c == '\\' {
        seq!['\\', '\\']
    } else {
        seq![c]
    }
}

/// How a whole string is written inside quotes.
pub open spec fn escape(s: Seq<char>) -> Seq<char>
    decreases s.len(),
{
    if s.len() == 0 {
        Seq::empty()
    } else {
        escape1(s[0]) + escape(s.skip(1))
    }
}

/// The decimal digit characters.
pub open spec fn is_digit(c: char) -> bool {
    48 <= c as int <= 57
}

/// The numeric value of a digit character.
pub open spec fn digit_val(c: char) -> int {
    c as int - 48
}

/// The digit character for a value below ten.
pub open spec fn digit_char(d: nat) -> char {
    if d == 0 {
        '0'
    } else if d == 1 {
        '1'
    } else if d == 2 {
        '2'
    } else if d == 3 {
        '3'
    } else if d == 4 {
        '4'
    } else if d == 5 {
        '5'
    } else if d == 6 {
        '6'
    } else if d == 7 {
        '7'
    } else if d == 8 {
        '8'
    } else {
        '9'
    }
}

/// The decimal digits of `n`, most significant first, without leading zeros.
pub open spec fn dec_digits(n: nat) -> Seq<char>
    decreases n,
{
    if n < 10 {
        seq![digit_char(n)]
    } else {
        dec_digits(n / 10).push(digit_char(n % 10))
    }
}

/// How the retry state is written.
pub open spec fn spec_encode_rc(rc: RetryCount) -> Seq<char> {
    match rc {
        RetryCount::NeverRetried => lit_never(),
        RetryCount::Count(n) => lit_count() + dec_digits(n as nat) + seq!['}'],
    }
}

/// The full encoding of a job record.
pub open spec fn spec_encode_job(v: EnqueuedJobView) -> Seq<char> {
    lit_name() + escape(v.name) + seq!['"'] + lit_args() + escape(v.args) + seq!['"']
        + lit_retry() + spec_encode_rc(v.retry_count) + seq!['}']
}

// ---------------------------------------------------------------------------
// The parse of the encoding, as a mathematical function of the text.
// ---------------------------------------------------------------------------
/// Read a quoted string's content up to and including its closing quote.
/// Returns the unescaped content and the number of characters consumed.
pub open spec fn spec_unescape(s: Seq<char>) -> Option<(Seq<char>, int)>
    decreases s.len(),
{
    if s.len() == 0 {
        None
    } else if s[0] == '"' {
        Some((Seq::empty(), 1))
    } else if s[0] == '\\' {
        if s.len() < 2 {
            None
        } else if s[1] == '"' || s[1] == '\\' {
            match spec_unescape(s.skip(2)) {
                None => None,
                Some((t, k)) => Some((seq![s[1]] + t, k + 2)),
            }
        } else {
            None
        }
    } else {
        match spec_unescape(s.skip(1)) {
            None => None,
            Some((t, k)) => Some((seq![s[0]] + t, k + 1)),
        }
    }
}

/// The number of leading digit characters.
pub open spec fn digit_run(s: Seq<char>) -> int
    decreases s.len(),
{
    if s.len() == 0 || !is_digit(s[0]) {
        0int
    } else {
        1 + digit_run(s.skip(1))
    }
}

/// The value of a sequence of digit characters, most significant first.
pub open spec fn dec_value(s: Seq<char>) -> int
    decreases s.len(),
{
    if s.len() == 0 {
        0int
    } else {
        dec_value(s.drop_last()) * 10 + digit_val(s.last())
    }
}

/// Read a retry state. Returns it and the number of characters consumed.
pub open spec fn spec_parse_rc(s: Seq<char>) -> Option<(RetryCount, int)> {
    if s.len() >= 14 && s.subrange(0, 14) == lit_never() {
        Some((RetryCount::NeverRetried, 14int))
    } else if s.len() >= 9 && s.subrange(0, 9) == lit_count() {
        let d = digit_run(s.skip(9));
        let digits = s.skip(9).take(d);
        if d >= 1 && dec_value(digits) <= u32::MAX && 9 + d < s.len() && s[9 + d] == '}' {
            Some((RetryCount::Count(dec_value(digits) as u32), 9 + d + 1))
        } else {
            None
        }
    } else {
        None
    }
}

/// Where one ignored field value ends, if one starts at `i`: a quoted
/// string, a run of digits, `true`, `false` or `null`.
pub open spec fn spec_skip_value(s: Seq<char>, i: int) -> Option<int> {
    if 0 <= i < s.len() && s[i] == '"' {
        match spec_unescape(s.skip(i + 1)) {
            None => None,
            Some((_, k)) => Some(i + 1 + k),
        }
    } else if 0 <= i && i + 4 <= s.len() && s.subrange(i, i + 4) == lit_true() {
        Some(i + 4)
    } else if 0 <= i && i + 4 <= s.len() && s.subrange(i, i + 4) == lit_null() {
        Some(i + 4)
    } else if 0 <= i && i + 5 <= s.len() && s.subrange(i, i + 5) == lit_false() {
        Some(i + 5)
    } else if 0 <= i <= s.len() && digit_run(s.skip(i)) >= 1 {
        Some(i + digit_run(s.skip(i)))
    } else {
        None
    }
}

/// `true`, as written in a record.
pub open spec fn lit_true() -> Seq<char> {
    seq!['t', 'r', 'u', 'e']
}

/// `false`, as written in a record.
pub open spec fn lit_false() -> Seq<char> {
    seq!['f', 'a', 'l', 's', 'e']
}

/// `null`, as written in a record.
pub open spec fn lit_null() -> Seq<char> {
    seq!['n', 'u', 'l', 'l']
}

/// The `name` key, as its unescaped content.
pub open spec fn key_name() -> Seq<char> {
    seq!['n', 'a', 'm', 'e']
}

/// The `args` key, as its unescaped content.
pub open spec fn key_args() -> Seq<char> {
    seq!['a', 'r', 'g', 's']
}

/// The `retry_count` key, as its unescaped content.
pub open spec fn key_retry() -> Seq<char> {
    seq!['r', 'e', 't', 'r', 'y', '_', 'c', 'o', 'u', 'n', 't']
}

/// Read one field starting at `i` — a quoted key, a colon, a value — and go
/// on from whatever follows it. The three known keys fill their slot, each
/// at most once; any unknown field whose value [`spec_skip_value`] accepts
/// is ignored, which makes the format forward-compatible. Fields may come
/// in any order.
pub open spec fn spec_parse_fields(
    s: Seq<char>,
    i: int,
    name: Option<Seq<char>>,
    args: Option<Seq<char>>,
    rc: Option<RetryCount>,
) -> Option<EnqueuedJobView>
    decreases s.len() - i, 1int,
{
    if i < 0 || i >= s.len() || s[i] != '"' {
        None
    } else {
        match spec_unescape(s.skip(i + 1)) {
            None => None,
            Some((key, k)) => {
                let j = i + 1 + k;
                if !(j < s.len() && s[j] == ':') {
                    None
                } else if key == key_name() {
                    if name is Some || !(j + 1 < s.len() && s[j + 1] == '"') {
                        None
                    } else {
                        match spec_unescape(s.skip(j + 2)) {
                            None => None,
                            Some((v, k2)) => {
                                let after = j + 2 + k2;
                                if i < after <= s.len() {
                                    spec_finish_field(s, after, Some(v), args, rc)
                                } else {
                                    None
                                }
                            },
                        }
                    }
                } else if key == key_args() {
                    if args is Some || !(j + 1 < s.len() && s[j + 1] == '"') {
                        None
                    } else {
                        match spec_unescape(s.skip(j + 2)) {
                            None => None,
                            Some((v, k2)) => {
                                let after = j + 2 + k2;
                                if i < after <= s.len() {
                                    spec_finish_field(s, after, name, Some(v), rc)
                                } else {
                                    None
                                }
                            },
                        }
                    }
                } else if key == key_retry() {
                    if rc is Some {
                        None
                    } else {
                        match spec_parse_rc(s.skip(j + 1)) {
                            None => None,
                            Some((rcv, k3)) => {
                                let after = j + 1 + k3;
                                if i < after <= s.len() {
                                    spec_finish_field(s, after, name, args, Some(rcv))
                                } else {
                                    None
                                }
                            },
                        }
                    }
                } else {
                    match spec_skip_value(s, j + 1) {
                        None => None,
                        Some(after) => {
                            if i < after <= s.len() {
                                spec_finish_field(s, after, name, args, rc)
                            } else {
                                None
                            }
                        },
                    }
                }
            },
        }
    }
}

/// After one field: the final brace ends the record — all three fields must
/// by then have been seen — and a comma starts the next field.
pub open spec fn spec_finish_field(
    s: Seq<char>,
    i: int,
    name: Option<Seq<char>>,
    args: Option<Seq<char>>,
    rc: Option<RetryCount>,
) -> Option<EnqueuedJobView>
    decreases s.len() - i, 0int,
{
    if i < 0 || i >= s.len() {
        None
    } else if s[i] == '}' {
        if i + 1 == s.len() {
            match (name, args, rc) {
                (Some(n), Some(a), Some(r)) => Some(
                    EnqueuedJobView { name: n, args: a, retry_count: r },
                ),
                _ => None,
            }
        } else {
            None
        }
    } else if s[i] == ',' {
        spec_parse_fields(s, i + 1, name, args, rc)
    } else {
        None
    }
}

/// Read a whole record: the job it denotes, if the text is well-formed.
pub open spec fn spec_parse_job(s: Seq<char>) -> Option<EnqueuedJobView> {
    if s.len() >= 1 && s[0] == '{' {
        spec_parse_fields(s, 1, None, None, None)
    } else {
        None
    }
}

// ---------------------------------------------------------------------------
// The round trip: parsing an encoding gives back the record.
// ---------------------------------------------------------------------------
proof fn lemma_escape_app(a: Seq<char>, b: Seq<char>)
    ensures
        escape(a + b) == escape(a) + escape(b),
    decreases a.len(),
{
    if a.len() == 0 {
        assert(a + b =~= b);
        assert(escape(a) + escape(b) =~= escape(b));
    } else {
        assert((a + b)[0] == a[0]);
        assert((a + b).skip(1) =~= a.skip(1) + b);
        lemma_escape_app(a.skip(1), b);
        assert(escape(a + b) =~= escape(a) + escape(b));
    }
}

proof fn lemma_unescape_escape(x: Seq<char>, rest: Seq<char>)
    ensures
        spec_unescape(escape(x) + seq!['"'] + rest) == Some((x, escape(x).len() + 1 as int)),
    decreases x.len(),
{
    let s = escape(x) + seq!['"'] + rest;
    if x.len() == 0 {
        assert(s =~= seq!['"'] + rest);
        assert(s[0] == '"');
        assert(x =~= Seq::<char>::empty());
    } else {
        let c = x[0];
        let x1 = x.skip(1);
        lemma_unescape_escape(x1, rest);
        assert(seq![c] + x1 =~= x);
        if c == '"' || c == '\\' {
            assert(s[0] == '\\');
            assert(s[1] == c);
            assert(s.len() >= 2);
            assert(s.skip(2) =~= escape(x1) + seq!['"'] + rest);
            assert(escape(x).len() == 2 + escape(x1).len());
        } else {
            assert(s[0] == c);
            assert(s.skip(1) =~= escape(x1) + seq!['"'] + rest);
            assert(escape(x).len() == 1 + escape(x1).len());
        }
    }
}

proof fn lemma_escape_plain(x: Seq<char>)
    requires
        forall|i: int| 0 <= i < x.len() ==> #[trigger] x[i] != '"' && x[i] != '\\',
    ensures
        escape(x) == x,
    decreases x.len(),
{
    if x.len() == 0 {
        assert(escape(x) =~= x);
    } else {
        assert(x[0] != '"' && x[0] != '\\');
        assert forall|i: int| 0 <= i < x.skip(1).len() implies #[trigger] x.skip(1)[i] != '"'
            && x.skip(1)[i] != '\\' by {
            assert(x.skip(1)[i] == x[i + 1]);
        }
        lemma_escape_plain(x.skip(1));
        assert(escape(x) =~= x);
    }
}

proof fn lemma_dec_digits_are_digits(n: nat)
    ensures
        dec_digits(n).len() >= 1,
        forall|i: int|
            0 <= i < dec_digits(n).len() ==> is_digit(#[trigger] dec_digits(n)[i]),
    decreases n,
{
    if n >= 10 {
        lemma_dec_digits_are_digits(n / 10);
    }
}

proof fn lemma_dec_value_of_digits(n: nat)
    ensures
        dec_value(dec_digits(n)) == n,
    decreases n,
{
    if n < 10 {
        assert(dec_value(Seq::<char>::empty()) == 0);
        assert(dec_digits(n) =~= seq![digit_char(n)]);
        assert(dec_digits(n).drop_last() =~= Seq::<char>::empty());
        assert(dec_digits(n).last() == digit_char(n));
    } else {
        lemma_dec_value_of_digits(n / 10);
        assert(dec_digits(n).drop_last() =~= dec_digits(n / 10));
        assert(dec_digits(n).last() == digit_char(n % 10));
        lemma_fundamental_div_mod(n as int, 10);
    }
}

proof fn lemma_digit_run_of(s: Seq<char>, d: int)
    requires
        0 <= d <= s.len(),
        forall|i: int| 0 <= i < d ==> is_digit(#[trigger] s[i]),
        d == s.len() || !is_digit(s[d]),
    ensures
        digit_run(s) == d,
    decreases d,
{
    if d == 0 {
    } else {
        assert(is_digit(s[0]));
        assert forall|i: int| 0 <= i < d - 1 implies is_digit(#[trigger] s.skip(1)[i]) by {
            assert(s.skip(1)[i] == s[i + 1]);
        }
        if d < s.len() {
            assert(s.skip(1)[d - 1] == s[d]);
        }
        lemma_digit_run_of(s.skip(1), d - 1);
    }
}

proof fn lemma_digit_run_props(s: Seq<char>)
    ensures
        0 <= digit_run(s) <= s.len(),
        forall|i: int| 0 <= i < digit_run(s) ==> is_digit(#[trigger] s[i]),
    decreases s.len(),
{
    if s.len() == 0 || !is_digit(s[0]) {
    } else {
        lemma_digit_run_props(s.skip(1));
        assert forall|i: int| 0 <= i < digit_run(s) implies is_digit(#[trigger] s[i]) by {
            if i >= 1 {
                assert(s.skip(1)[i - 1] == s[i]);
            }
        }
    }
}

proof fn lemma_digit_run_min(s: Seq<char>, m: int)
    requires
        0 <= m <= s.len(),
        forall|i: int| 0 <= i < m ==> is_digit(#[trigger] s[i]),
    ensures
        digit_run(s) >= m,
    decreases m,
{
    if m > 0 {
        assert(is_digit(s[0]));
        assert forall|i: int| 0 <= i < m - 1 implies is_digit(#[trigger] s.skip(1)[i]) by {
            assert(s.skip(1)[i] == s[i + 1]);
        }
        lemma_digit_run_min(s.skip(1), m - 1);
    } else {
        lemma_digit_run_props(s);
    }
}

proof fn lemma_dec_value_nonneg(s: Seq<char>)
    requires
        forall|i: int| 0 <= i < s.len() ==> is_digit(#[trigger] s[i]),
    ensures
        dec_value(s) >= 0,
    decreases s.len(),
{
    if s.len() > 0 {
        assert forall|i: int| 0 <= i < s.drop_last().len() implies is_digit(
            #[trigger] s.drop_last()[i],
        ) by {
            assert(s.drop_last()[i] == s[i]);
        }
        lemma_dec_value_nonneg(s.drop_last());
        assert(is_digit(s.last()));
    }
}

proof fn lemma_dec_value_prefix(s: Seq<char>, m: int)
    requires
        forall|i: int| 0 <= i < s.len() ==> is_digit(#[trigger] s[i]),
        0 <= m <= s.len(),
    ensures
        dec_value(s.take(m)) <= dec_value(s),
    decreases s.len() - m,
{
    if m == s.len() {
        assert(s.take(m) =~= s);
    } else {
        assert forall|i: int| 0 <= i < s.take(m).len() implies is_digit(
            #[trigger] s.take(m)[i],
        ) by {
            assert(s.take(m)[i] == s[i]);
        }
        lemma_dec_value_nonneg(s.take(m));
        assert(s.take(m + 1).drop_last() =~= s.take(m));
        assert(s.take(m + 1).last() == s[m]);
        assert(is_digit(s[m]));
        assert(dec_value(s.take(m)) <= dec_value(s.take(m + 1)));
        lemma_dec_value_prefix(s, m + 1);
    }
}

proof fn lemma_parse_rc_encode(rc: RetryCount, rest: Seq<char>)
    ensures
        spec_parse_rc(spec_encode_rc(rc) + rest) == Some(
            (rc, spec_encode_rc(rc).len() as int),
        ),
{
    let s = spec_encode_rc(rc) + rest;
    match rc {
        RetryCount::NeverRetried => {
            assert(s.len() >= 14);
            assert(s.subrange(0, 14) =~= lit_never());
        },
        RetryCount::Count(n) => {
            let ds = dec_digits(n as nat);
            lemma_dec_digits_are_digits(n as nat);
            lemma_dec_value_of_digits(n as nat);
            let d = ds.len() as int;
            if s.len() >= 14 && s.subrange(0, 14) == lit_never() {
                assert(s.subrange(0, 14)[0] == s[0]);
                assert(s[0] == '{');
                assert(lit_never()[0] == '"');
                assert(false);
            }
            assert(s.subrange(0, 9) =~= lit_count());
            let tail = s.skip(9);
            assert(tail =~= ds + seq!['}'] + rest);
            assert forall|i: int| 0 <= i < d implies is_digit(#[trigger] tail[i]) by {
                assert(tail[i] == ds[i]);
            }
            assert(tail[d] == '}');
            assert(!is_digit('}'));
            lemma_digit_run_of(tail, d);
            assert(tail.take(d) =~= ds);
            assert(n <= u32::MAX);
            assert(9 + d < s.len());
            assert(s[9 + d] == '}');
            assert(spec_encode_rc(rc).len() == 9 + d + 1);
        },
    }
}

/// Parsing an encoded record gives back exactly the record: the exchange
/// format round-trips without loss of name, args, or retry state.
#[verifier::rlimit(100)]
pub proof fn lemma_parse_encode(v: EnqueuedJobView)
    ensures
        spec_parse_job(spec_encode_job(v)) == Some(v),
{
    let s = spec_encode_job(v);
    let en = escape(v.name);
    let ea = escape(v.args);
    let erc = spec_encode_rc(v.retry_count);
    let q = seq!['"'];
    let rb = seq!['}'];
    assert(s[0] == '{');

    // The "name" field, starting at position 1.
    assert(s[1] == '"');
    let rest_k1 = seq![':'] + q + en + q + lit_args() + ea + q + lit_retry() + erc + rb;
    assert(s.skip(2) =~= key_name() + q + rest_k1);
    assert forall|i: int| 0 <= i < key_name().len() implies #[trigger] key_name()[i] != '"'
        && key_name()[i] != '\\' by {}
    lemma_escape_plain(key_name());
    lemma_unescape_escape(key_name(), rest_k1);
    assert(spec_unescape(s.skip(2)) == Some((key_name(), 5int)));
    assert(s[7] == ':');
    assert(s[8] == '"');
    let rest1 = lit_args() + ea + q + lit_retry() + erc + rb;
    assert(s.skip(9) =~= en + q + rest1);
    lemma_unescape_escape(v.name, rest1);
    let i2 = 9 + en.len() + 1 as int;

    // The "args" field, starting just after the comma at `i2`.
    assert(s[i2 as int] == ',');
    assert(s[i2 + 1] == '"');
    let rest_k2 = seq![':'] + q + ea + q + lit_retry() + erc + rb;
    assert(s.skip(i2 + 2) =~= key_args() + q + rest_k2);
    assert forall|i: int| 0 <= i < key_args().len() implies #[trigger] key_args()[i] != '"'
        && key_args()[i] != '\\' by {}
    lemma_escape_plain(key_args());
    lemma_unescape_escape(key_args(), rest_k2);
    assert(spec_unescape(s.skip(i2 + 2)) == Some((key_args(), 5int)));
    assert(s[i2 + 7] == ':');
    assert(s[i2 + 8] == '"');
    let rest2 = lit_retry() + erc + rb;
    assert(s.skip(i2 + 9) =~= ea + q + rest2);
    lemma_unescape_escape(v.args, rest2);
    let i3 = i2 + 9 + ea.len() + 1;

    // The "retry_count" field, starting just after the comma at `i3`.
    assert(s[i3] == ',');
    assert(s[i3 + 1] == '"');
    let rest_k3 = seq![':'] + erc + rb;
    assert(s.skip(i3 + 2) =~= key_retry() + q + rest_k3);
    assert forall|i: int| 0 <= i < key_retry().len() implies #[trigger] key_retry()[i] != '"'
        && key_retry()[i] != '\\' by {}
    lemma_escape_plain(key_retry());
    lemma_unescape_escape(key_retry(), rest_k3);
    assert(spec_unescape(s.skip(i3 + 2)) == Some((key_retry(), 12int)));
    assert(s[i3 + 14] == ':');
    assert(s.skip(i3 + 15) =~= erc + rb);
    lemma_parse_rc_encode(v.retry_count, rb);
    let i4 = i3 + 15 + erc.len();

    // The closing brace, and the walk back out of the recursion.
    assert(s[i4] == '}');
    assert(i4 + 1 == s.len());
    assert(key_args() != key_name());
    assert(key_retry() != key_name());
    assert(key_retry() != key_args());
    assert(spec_finish_field(s, i4, Some(v.name), Some(v.args), Some(v.retry_count)) == Some(
        EnqueuedJobView { name: v.name, args: v.args, retry_count: v.retry_count },
    ));
    assert(spec_parse_fields(s, i3 + 1, Some(v.name), Some(v.args), None) == Some(v));
    assert(spec_finish_field(s, i3, Some(v.name), Some(v.args), None) == Some(v));
    assert(spec_parse_fields(s, i2 + 1, Some(v.name), None, None) == Some(v));
    assert(spec_finish_field(s, i2, Some(v.name), None, None) == Some(v));
    assert(spec_parse_fields(s, 1, None, None, None) == Some(v));
}

// ---------------------------------------------------------------------------
// Executable encoding.
// ---------------------------------------------------------------------------
/// The characters of a string, in order.
fn chars_of(s: &str) -> (v: Vec<char>)
    ensures
        v@ == s@,
{
    let n = s.unicode_len();
    let mut v: Vec<char> = Vec::new();
    let mut i: usize = 0;
    while i < n
        invariant
            i <= n,
            n == s@.len(),
            v@ == s@.take(i as int),
        decreases n - i,
    {
        v.push(s.get_char(i));
        proof {
            assert(s@.take(i + 1 as int) =~= s@.take(i as int).push(s@[i as int]));
        }
        i = i + 1;
    }
    proof {
        assert(s@.take(n as int) =~= s@);
    }
    v
}

/// Relies on `String: FromIterator<char>`: collecting characters yields the
/// string holding exactly those characters, in order.
#[verifier::external_body]
fn string_from_chars(v: &Vec<char>) -> (s: String)
    ensures
        s@ == v@,
{
    v.iter().collect()
}

fn digit_of(d: u32) -> (c: char)
    requires
        d <= 9,
    ensures
        c == digit_char(d as nat),
{
    if d == 0 {
        '0'
    } else if d == 1 {
        '1'
    } else if d == 2 {
        '2'
    } else if d == 3 {
        '3'
    } else if d == 4 {
        '4'
    } else if d == 5 {
        '5'
    } else if d == 6 {
        '6'
    } else if d == 7 {
        '7'
    } else if d == 8 {
        '8'
    } else {
        '9'
    }
}

fn push_decimal(n: u32, out: &mut Vec<char>)
    ensures
        final(out)@ == old(out)@ + dec_digits(n as nat),
    decreases n,
{
    if n < 10 {
        out.push(digit_of(n));
        proof {
            assert(out@ =~= old(out)@ + dec_digits(n as nat));
        }
    } else {
        assert(n / 10 < n);
        push_decimal(n / 10, out);
        out.push(digit_of(n % 10));
        proof {
            assert(out@ =~= old(out)@ + dec_digits(n as nat));
        }
    }
}

fn push_lit_name(out: &mut Vec<char>)
    ensures
        final(out)@ == old(out)@ + lit_name(),
{
    out.push('{');
    out.push('"');
    out.push('n');
    out.push('a');
    out.push('m');
    out.push('e');
    out.push('"');
    out.push(':');
    out.push('"');
    proof {
        assert(out@ =~= old(out)@ + lit_name());
    }
}

fn push_lit_args(out: &mut Vec<char>)
    ensures
        final(out)@ == old(out)@ + lit_args(),
{
    out.push(',');
    out.push('"');
    out.push('a');
    out.push('r');
    out.push('g');
    out.push('s');
    out.push('"');
    out.push(':');
    out.push('"');
    proof {
        assert(out@ =~= old(out)@ + lit_args());
    }
}

fn push_lit_retry(out: &mut Vec<char>)
    ensures
        final(out)@ == old(out)@ + lit_retry(),
{
    out.push(',');
    out.push('"');
    out.push('r');
    out.push('e');
    out.push('t');
    out.push('r');
    out.push('y');
    out.push('_');
    out.push('c');
    out.push('o');
    out.push('u');
    out.push('n');
    out.push('t');
    out.push('"');
    out.push(':');
    proof {
        assert(out@ =~= old(out)@ + lit_retry());
    }
}

fn push_lit_never(out: &mut Vec<char>)
    ensures
        final(out)@ == old(out)@ + lit_never(),
{
    out.push('"');
    out.push('N');
    out.push('e');
    out.push('v');
    out.push('e');
    out.push('r');
    out.push('R');
    out.push('e');
    out.push('t');
    out.push('r');
    out.push('i');
    out.push('e');
    out.push('d');
    out.push('"');
    proof {
        assert(out@ =~= old(out)@ + lit_never());
    }
}

fn push_lit_count(out: &mut Vec<char>)
    ensures
        final(out)@ == old(out)@ + lit_count(),
{
    out.push('{');
    out.push('"');
    out.push('C');
    out.push('o');
    out.push('u');
    out.push('n');
    out.push('t');
    out.push('"');
    out.push(':');
    proof {
        assert(out@ =~= old(out)@ + lit_count());
    }
}

fn escape_into(src: &Vec<char>, out: &mut Vec<char>)
    ensures
        final(out)@ == old(out)@ + escape(src@),
{
    let n = src.len();
    let mut i: usize = 0;
    while i < n
        invariant
            i <= n,
            n == src@.len(),
            out@ == old(out)@ + escape(src@.take(i as int)),
        decreases n - i,
    {
        let c = src[i];
        proof {
            lemma_escape_app(src@.take(i as int), seq![src@[i as int]]);
            assert(src@.take(i + 1 as int) =~= src@.take(i as int) + seq![src@[i as int]]);
            assert(seq![src@[i as int]].skip(1) =~= Seq::<char>::empty());
            assert(escape(Seq::<char>::empty()) =~= Seq::<char>::empty());
            assert(escape(seq![src@[i as int]]) =~= escape1(src@[i as int]));
        }
        if c == '"' {
            out.push('\\');
            out.push('"');
        } else if c == '\\' {
            out.push('\\');
            out.push('\\');
        } else {
            out.push(c);
        }
        proof {
            assert(out@ =~= old(out)@ + escape(src@.take(i + 1 as int)));
        }
        i = i + 1;
    }
    proof {
        assert(src@.take(n as int) =~= src@);
    }
}

/// Serialize a job record to its textual exchange form.
pub fn serialize_job(job: &EnqueuedJob) -> (r: String)
    ensures
        r@ == spec_encode_job(job@),
{
    let mut out: Vec<char> = Vec::new();
    push_lit_name(&mut out);
    let name_chars = chars_of(job.name());
    escape_into(&name_chars, &mut out);
    out.push('"');
    push_lit_args(&mut out);
    let args_chars = chars_of(job.args());
    escape_into(&args_chars, &mut out);
    out.push('"');
    push_lit_retry(&mut out);
    match *job.retry_count() {
        RetryCount::NeverRetried => push_lit_never(&mut out),
        RetryCount::Count(n) => {
            push_lit_count(&mut out);
            push_decimal(n, &mut out);
            out.push('}');
        },
    }
    out.push('}');
    proof {
        assert(out@ =~= spec_encode_job(job@));
    }
    string_from_chars(&out)
}

// ---------------------------------------------------------------------------
// Executable parsing.
// ---------------------------------------------------------------------------
fn lit_never_vec() -> (v: Vec<char>)
    ensures
        v@ == lit_never(),
{
    let mut v: Vec<char> = Vec::new();
    push_lit_never(&mut v);
    proof {
        assert(v@ =~= lit_never());
    }
    v
}

fn lit_count_vec() -> (v: Vec<char>)
    ensures
        v@ == lit_count(),
{
    let mut v: Vec<char> = Vec::new();
    push_lit_count(&mut v);
    proof {
        assert(v@ =~= lit_count());
    }
    v
}

/// Whether the pattern occurs in `s` starting at position `i`.
fn match_at(s: &Vec<char>, i: usize, pat: &Vec<char>) -> (b: bool)
    ensures
        b == (i + pat@.len() <= s@.len() && s@.subrange(
            i as int,
            i as int + pat@.len() as int,
        ) == pat@),
{
    let n = s.len();
    if i > n {
        return false;
    }
    if pat.len() > n - i {
        return false;
    }
    let mut j: usize = 0;
    while j < pat.len()
        invariant
            j <= pat@.len(),
            n == s@.len(),
            i + pat@.len() <= n,
            forall|t: int| 0 <= t < j ==> s@[i + t] == pat@[t],
        decreases pat@.len() - j,
    {
        if s[i + j] != pat[j] {
            proof {
                assert(s@.subrange(i as int, i as int + pat@.len() as int)[j as int] == s@[i
                    + j as int]);
            }
            return false;
        }
        j = j + 1;
    }
    proof {
        assert(s@.subrange(i as int, i as int + pat@.len() as int) =~= pat@);
    }
    true
}

/// Read a quoted string's content starting at `start`, up to and including
/// its closing quote. Returns the content and the position just after it.
fn unescape_from(s: &Vec<char>, start: usize) -> (r: Option<(Vec<char>, usize)>)
    requires
        start <= s@.len(),
    ensures
        r matches Some((t, j)) ==> start < j <= s@.len() && spec_unescape(
            s@.skip(start as int),
        ) == Some((t@, j - start as int)),
        r is None ==> spec_unescape(s@.skip(start as int)) is None,
    decreases s@.len() - start,
{
    if start == s.len() {
        return None;
    }
    let c = s[start];
    proof {
        assert(s@.skip(start as int)[0] == c);
    }
    if c == '"' {
        Some((Vec::new(), start + 1))
    } else if c == '\\' {
        if start + 1 == s.len() {
            None
        } else {
            let c2 = s[start + 1];
            proof {
                assert(s@.skip(start as int)[1] == c2);
            }
            if c2 == '"' || c2 == '\\' {
                proof {
                    assert(s@.skip(start as int).skip(2) =~= s@.skip(start + 2 as int));
                }
                match unescape_from(s, start + 2) {
                    None => None,
                    Some((t, j)) => {
                        let mut v: Vec<char> = Vec::new();
                        v.push(c2);
                        let mut t = t;
                        v.append(&mut t);
                        Some((v, j))
                    },
                }
            } else {
                None
            }
        }
    } else {
        proof {
            assert(s@.skip(start as int).skip(1) =~= s@.skip(start + 1 as int));
        }
        match unescape_from(s, start + 1) {
            None => None,
            Some((t, j)) => {
                let mut v: Vec<char> = Vec::new();
                v.push(c);
                let mut t = t;
                v.append(&mut t);
                Some((v, j))
            },
        }
    }
}

fn is_digit_char(c: char) -> (b: bool)
    ensures
        b == is_digit(c),
{
    let u = c as u32;
    48 <= u && u <= 57
}

/// Read a run of decimal digits starting at `start` as a `u32`. Returns the
/// value and the position just after the run; `None` if the run is empty or
/// its value does not fit.
fn parse_u32_run(s: &Vec<char>, start: usize) -> (r: Option<(u32, usize)>)
    requires
        start <= s@.len(),
    ensures
        r matches Some((v, j)) ==> start < j <= s@.len() && digit_run(s@.skip(start as int)) == j
            - start as int && v == dec_value(s@.skip(start as int).take(j - start as int)),
        r is None ==> digit_run(s@.skip(start as int)) == 0 || dec_value(
            s@.skip(start as int).take(digit_run(s@.skip(start as int))),
        ) > u32::MAX,
{
    let ghost tail = s@.skip(start as int);
    let n = s.len();
    let mut j: usize = start;
    let mut val: u32 = 0;
    while j < n && is_digit_char(s[j])
        invariant
            start <= j <= n,
            n == s@.len(),
            tail == s@.skip(start as int),
            forall|t: int| start <= t < j ==> is_digit(#[trigger] s@[t]),
            val == dec_value(s@.subrange(start as int, j as int)),
        decreases n - j,
    {
        let c = s[j];
        let d = (c as u32) - 48;
        proof {
            assert(s@.subrange(start as int, j + 1 as int).drop_last() =~= s@.subrange(
                start as int,
                j as int,
            ));
            assert(s@.subrange(start as int, j + 1 as int).last() == s@[j as int]);
            assert(digit_val(c) == d as int);
        }
        if val > (u32::MAX - d) / 10 {
            proof {
                lemma_fundamental_div_mod((u32::MAX - d) as int, 10);
                assert(val * 10 + d > u32::MAX);
                let m = j + 1 - start as int;
                assert forall|t: int| 0 <= t < m implies is_digit(#[trigger] tail[t]) by {
                    assert(tail[t] == s@[start + t]);
                }
                lemma_digit_run_min(tail, m);
                lemma_digit_run_props(tail);
                let run = digit_run(tail);
                assert forall|t: int| 0 <= t < tail.take(run).len() implies is_digit(
                    #[trigger] tail.take(run)[t],
                ) by {
                    assert(tail.take(run)[t] == tail[t]);
                }
                lemma_dec_value_prefix(tail.take(run), m);
                assert(tail.take(run).take(m) =~= tail.take(m));
                assert(tail.take(m) =~= s@.subrange(start as int, j + 1 as int));
                assert(dec_value(tail.take(m)) == val * 10 + d);
                assert(dec_value(tail.take(run)) > u32::MAX);
            }
            return None;
        }
        proof {
            lemma_fundamental_div_mod((u32::MAX - d) as int, 10);
            assert(val * 10 + d <= u32::MAX);
        }
        val = val * 10 + d;
        j = j + 1;
    }
    proof {
        assert forall|t: int| 0 <= t < j - start as int implies is_digit(#[trigger] tail[t]) by {
            assert(tail[t] == s@[start + t]);
        }
        if j < n {
            assert(tail[j - start as int] == s@[j as int]);
        }
        lemma_digit_run_of(tail, j - start as int);
        assert(tail.take(j - start as int) =~= s@.subrange(start as int, j as int));
    }
    if j == start {
        None
    } else {
        Some((val, j))
    }
}

/// Read a retry state starting at `i`. Returns it and the position just
/// after it.
fn parse_rc_at(s: &Vec<char>, i: usize) -> (r: Option<(RetryCount, usize)>)
    requires
        i <= s@.len(),
    ensures
        r matches Some((rc, j)) ==> i < j <= s@.len() && spec_parse_rc(s@.skip(i as int)) == Some(
            (rc, j - i as int),
        ),
        r is None ==> spec_parse_rc(s@.skip(i as int)) is None,
{
    let ghost tail = s@.skip(i as int);
    let _n = s.len();
    let lit_nr = lit_never_vec();
    if match_at(s, i, &lit_nr) {
        proof {
            assert(tail.subrange(0, 14) =~= s@.subrange(i as int, i as int + 14));
        }
        return Some((RetryCount::NeverRetried, i + 14));
    }
    proof {
        if tail.len() >= 14 {
            assert(tail.subrange(0, 14) =~= s@.subrange(i as int, i as int + 14));
        }
    }
    let lit_c = lit_count_vec();
    if !match_at(s, i, &lit_c) {
        proof {
            if tail.len() >= 9 {
                assert(tail.subrange(0, 9) =~= s@.subrange(i as int, i as int + 9));
            }
        }
        return None;
    }
    proof {
        assert(tail.subrange(0, 9) =~= s@.subrange(i as int, i as int + 9));
        assert(tail.skip(9) =~= s@.skip(i + 9 as int));
    }
    match parse_u32_run(s, i + 9) {
        None => None,
        Some((v, j)) => {
            proof {
                assert(tail.skip(9).take(j - (i + 9) as int) == s@.skip(i + 9 as int).take(
                    j - (i + 9) as int,
                ));
            }
            if j < s.len() {
                let c = s[j];
                proof {
                    assert(tail[j - i as int] == s@[j as int]);
                }
                if c == '}' {
                    return Some((RetryCount::Count(v), j + 1));
                }
            }
            None
        },
    }
}

fn lit_true_vec() -> (v: Vec<char>)
    ensures
        v@ == lit_true(),
{
    let mut v: Vec<char> = Vec::new();
    v.push('t');
    v.push('r');
    v.push('u');
    v.push('e');
    proof {
        assert(v@ =~= lit_true());
    }
    v
}

fn lit_false_vec() -> (v: Vec<char>)
    ensures
        v@ == lit_false(),
{
    let mut v: Vec<char> = Vec::new();
    v.push('f');
    v.push('a');
    v.push('l');
    v.push('s');
    v.push('e');
    proof {
        assert(v@ =~= lit_false());
    }
    v
}

fn lit_null_vec() -> (v: Vec<char>)
    ensures
        v@ == lit_null(),
{
    let mut v: Vec<char> = Vec::new();
    v.push('n');
    v.push('u');
    v.push('l');
    v.push('l');
    proof {
        assert(v@ =~= lit_null());
    }
    v
}

/// The position just after the run of digits starting at `start`.
fn digit_run_end(s: &Vec<char>, start: usize) -> (j: usize)
    requires
        start <= s@.len(),
    ensures
        start <= j <= s@.len(),
        j - start == digit_run(s@.skip(start as int)),
{
    let n = s.len();
    let mut j: usize = start;
    while j < n && is_digit_char(s[j])
        invariant
            start <= j <= n,
            n == s@.len(),
            forall|t: int| start <= t < j ==> is_digit(#[trigger] s@[t]),
        decreases n - j,
    {
        j = j + 1;
    }
    proof {
        let tail = s@.skip(start as int);
        assert forall|t: int| 0 <= t < j - start as int implies is_digit(#[trigger] tail[t]) by {
            assert(tail[t] == s@[start + t]);
        }
        if j < n {
            assert(tail[j - start as int] == s@[j as int]);
        }
        lemma_digit_run_of(tail, j - start as int);
    }
    j
}

/// Where the ignored field value starting at `i` ends, if it is one this
/// format accepts.
fn skip_value_at(s: &Vec<char>, i: usize) -> (r: Option<usize>)
    requires
        i <= s@.len(),
    ensures
        r matches Some(j) ==> i < j <= s@.len() && spec_skip_value(s@, i as int) == Some(
            j as int,
        ),
        r is None ==> spec_skip_value(s@, i as int) is None,
{
    let n = s.len();
    if i < n && s[i] == '"' {
        match unescape_from(s, i + 1) {
            None => None,
            Some((_content, j)) => Some(j),
        }
    } else {
        let lt = lit_true_vec();
        if match_at(s, i, &lt) {
            return Some(i + 4);
        }
        let ln = lit_null_vec();
        if match_at(s, i, &ln) {
            return Some(i + 4);
        }
        let lf = lit_false_vec();
        if match_at(s, i, &lf) {
            return Some(i + 5);
        }
        let j = digit_run_end(s, i);
        if j > i {
            Some(j)
        } else {
            None
        }
    }
}

fn vec_eq(a: &Vec<char>, b: &Vec<char>) -> (r: bool)
    ensures
        r == (a@ == b@),
{
    if a.len() != b.len() {
        return false;
    }
    let n = a.len();
    let mut i: usize = 0;
    while i < n
        invariant
            i <= n,
            n == a@.len() == b@.len(),
            forall|t: int| 0 <= t < i ==> a@[t] == b@[t],
        decreases n - i,
    {
        if a[i] != b[i] {
            return false;
        }
        i = i + 1;
    }
    proof {
        assert(a@ =~= b@);
    }
    true
}

fn key_name_vec() -> (v: Vec<char>)
    ensures
        v@ == key_name(),
{
    let mut v: Vec<char> = Vec::new();
    v.push('n');
    v.push('a');
    v.push('m');
    v.push('e');
    proof {
        assert(v@ =~= key_name());
    }
    v
}

fn key_args_vec() -> (v: Vec<char>)
    ensures
        v@ == key_args(),
{
    let mut v: Vec<char> = Vec::new();
    v.push('a');
    v.push('r');
    v.push('g');
    v.push('s');
    proof {
        assert(v@ =~= key_args());
    }
    v
}

fn key_retry_vec() -> (v: Vec<char>)
    ensures
        v@ == key_retry(),
{
    let mut v: Vec<char> = Vec::new();
    v.push('r');
    v.push('e');
    v.push('t');
    v.push('r');
    v.push('y');
    v.push('_');
    v.push('c');
    v.push('o');
    v.push('u');
    v.push('n');
    v.push('t');
    proof {
        assert(v@ =~= key_retry());
    }
    v
}

/// The content of an optional string slot, as the parse specification
/// speaks of it.
pub open spec fn view_opt(o: Option<Vec<char>>) -> Option<Seq<char>> {
    match o {
        None => None,
        Some(v) => Some(v@),
    }
}

/// The record a parse result denotes, if any.
pub open spec fn view_res(r: Option<EnqueuedJob>) -> Option<EnqueuedJobView> {
    match r {
        None => None,
        Some(j) => Some(j@),
    }
}

/// Read one field starting at `i` and go on from whatever follows it,
/// mirroring [`spec_parse_fields`].
fn parse_fields_at(
    s: &Vec<char>,
    i: usize,
    name: Option<Vec<char>>,
    args: Option<Vec<char>>,
    rc: Option<RetryCount>,
) -> (r: Option<EnqueuedJob>)
    requires
        i <= s@.len(),
    ensures
        view_res(r) == spec_parse_fields(s@, i as int, view_opt(name), view_opt(args), rc),
    decreases s@.len() - i, 1int,
{
    let n = s.len();
    if i >= n {
        return None;
    }
    if s[i] != '"' {
        return None;
    }
    match unescape_from(s, i + 1) {
        None => None,
        Some((key, j)) => {
            if !(j < n && s[j] == ':') {
                return None;
            }
            let kn = key_name_vec();
            if vec_eq(&key, &kn) {
                if name.is_some() || !(j + 1 < n && s[j + 1] == '"') {
                    return None;
                }
                match unescape_from(s, j + 2) {
                    None => None,
                    Some((v, after)) => finish_field_at(s, after, Some(v), args, rc),
                }
            } else {
                let ka = key_args_vec();
                if vec_eq(&key, &ka) {
                    if args.is_some() || !(j + 1 < n && s[j + 1] == '"') {
                        return None;
                    }
                    match unescape_from(s, j + 2) {
                        None => None,
                        Some((v, after)) => finish_field_at(s, after, name, Some(v), rc),
                    }
                } else {
                    let kr = key_retry_vec();
                    if vec_eq(&key, &kr) {
                        if rc.is_some() {
                            return None;
                        }
                        match parse_rc_at(s, j + 1) {
                            None => None,
                            Some((rcv, after)) => finish_field_at(
                                s,
                                after,
                                name,
                                args,
                                Some(rcv),
                            ),
                        }
                    } else {
                        match skip_value_at(s, j + 1) {
                            None => None,
                            Some(after) => finish_field_at(s, after, name, args, rc),
                        }
                    }
                }
            }
        },
    }
}

/// After one field: the final brace ends the record, a comma starts the
/// next field, mirroring [`spec_finish_field`].
fn finish_field_at(
    s: &Vec<char>,
    i: usize,
    name: Option<Vec<char>>,
    args: Option<Vec<char>>,
    rc: Option<RetryCount>,
) -> (r: Option<EnqueuedJob>)
    requires
        i <= s@.len(),
    ensures
        view_res(r) == spec_finish_field(s@, i as int, view_opt(name), view_opt(args), rc),
    decreases s@.len() - i, 0int,
{
    let n = s.len();
    if i >= n {
        return None;
    }
    let c = s[i];
    if c == '}' {
        if i + 1 != n {
            return None;
        }
        match (name, args, rc) {
            (Some(nv), Some(av), Some(rv)) => {
                let name_s = string_from_chars(&nv);
                let args_s = string_from_chars(&av);
                Some(EnqueuedJob::new(name_s, args_s, rv))
            },
            _ => None,
        }
    } else if c == ',' {
        parse_fields_at(s, i + 1, name, args, rc)
    } else {
        None
    }
}

fn parse_error() -> (e: Error)
    ensures
        e matches Error::SerializationError(_),
{
    Error::SerializationError("could not parse a stored job record".to_owned())
}

/// Deserialize a job record from its textual exchange form. On any text that
/// is an encoding of a record, this returns exactly that record; on any other
/// text it reports a serialization error.
pub fn deserialize_job(s: &str) -> (r: Result<EnqueuedJob, Error>)
    ensures
        spec_parse_job(s@) matches Some(v) ==> r matches Ok(j) && j@ == v,
        spec_parse_job(s@) is None ==> (r matches Err(e) && e matches Error::SerializationError(
            _,
        )),
{
    let cs = chars_of(s);
    if cs.len() == 0 {
        return Err(parse_error());
    }
    if cs[0] != '{' {
        return Err(parse_error());
    }
    match parse_fields_at(&cs, 1, None, None, None) {
        Some(j) => Ok(j),
        None => Err(parse_error()),
    }
}

/// Serialize-then-deserialize yields a record with the same name, args and
/// retry state: the executable counterpart of [`lemma_parse_encode`].
pub fn round_trip(job: &EnqueuedJob) -> (r: EnqueuedJob)
    ensures
        r@ == job@,
{
    let text = serialize_job(job);
    proof {
        lemma_parse_encode(job@);
    }
    match deserialize_job(text.as_str()) {
        Ok(j) => j,
        Err(_) => {
            proof {
                assert(false);
            }
            EnqueuedJob::new(String::new(), String::new(), RetryCount::NeverRetried)
        },
    }
}

} // verus!
