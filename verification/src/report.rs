//! Size limits, error messages and the assembled result of comparing two
//! files.
use vstd::prelude::*;
use vstd::string::StringExecFns;
use vstd::utf8::{decode_utf8, valid_utf8};
use crate::diff::{compared_lines, compute_text_diff, diff_outcome};
use crate::text::push_char;
use crate::rows::{line_pairs_fit, DiffRow, DiffStats};

verus! {

broadcast use vstd::string::group_string_axioms;

/// Soft warning threshold (50 MiB).
pub const WARN_BYTES: u64 = 50 * 1024 * 1024;

/// Hard refusal threshold (100 MiB).
pub const MAX_BYTES: u64 = 100 * 1024 * 1024;

/// Bytes in a MiB.
pub const MIB: u64 = 1024 * 1024;

/// Why two files could not be compared.
#[derive(Debug)]
pub enum DiffError {
    Io(String),
    TooLarge { path: String, size: u64 },
}

/// The result of comparing two files.
#[derive(Debug, Clone)]
pub struct DiffResult {
    pub left_path: String,
    pub right_path: String,
    pub left_bytes: u64,
    pub right_bytes: u64,
    pub warning: Option<String>,
    pub stats: DiffStats,
    pub rows: Vec<DiffRow>,
    /// Indices into `rows` that are not `Equal` (for prev/next navigation).
    pub change_indices: Vec<usize>,
}

/// The decimal digit `d` as a character.
pub open spec fn digit(d: nat) -> char {
    (48 + d) as char
}

/// The decimal representation of `n`, without leading zeros.
pub open spec fn decimal(n: nat) -> Seq<char>
    decreases n,
{
    if n < 10 {
        seq![digit(n)]
    } else {
        decimal(n / 10).push(digit(n % 10))
    }
}

/// Two to the power `e`.
pub open spec fn two_pow(e: nat) -> nat
    decreases e,
{
    if e == 0 {
        1
    } else {
        2 * two_pow((e - 1) as nat)
    }
}

/// `a / b` rounded to the nearest integer, ties to the even one.
pub open spec fn round_div_even(a: nat, b: nat) -> nat {
    let q = a / b;
    let r = a % b;
    if 2 * r > b || (2 * r == b && q % 2 == 1) {
        q + 1
    } else {
        q
    }
}

/// How many low bits of `n` do not fit the 53-bit significand of an `f64`.
pub open spec fn f64_shift(n: nat) -> nat
    decreases n,
{
    if n < 0x20_0000_0000_0000 {
        0
    } else {
        1 + f64_shift(n / 2)
    }
}

/// The value of `n as f64`: `n` rounded to the nearest number with a
/// 53-bit significand, ties to even.
pub open spec fn as_f64(n: nat) -> nat {
    let u = two_pow(f64_shift(n));
    round_div_even(n, u) * u
}

/// `size as f64 / MiB` rounded to tenths (as `{:.1}` rounds), in tenths.
pub open spec fn mib_tenths(size: nat) -> nat {
    round_div_even(as_f64(size) * 10, MIB as nat)
}

/// `size` in MiB with one decimal, as `{:.1}` prints `size as f64 / MiB`.
pub open spec fn mib_one_decimal(size: nat) -> Seq<char> {
    decimal(mib_tenths(size) / 10) + seq!['.'] + seq![digit(mib_tenths(size) % 10)]
}

/// The message of a file that exceeds the hard limit.
pub open spec fn too_large_message(path: Seq<char>, size: nat) -> Seq<char> {
    "Il file «"@ + path + "» è troppo grande ("@ + mib_one_decimal(size)
        + " MiB). Limite massimo: "@ + decimal((MAX_BYTES / MIB) as nat) + " MiB."@
}

/// The warning given when a file exceeds the soft limit.
pub open spec fn large_file_warning() -> Seq<char> {
    "Uno o entrambi i file superano "@ + decimal((WARN_BYTES / MIB) as nat)
        + " MiB: il calcolo del diff può richiedere più memoria e tempo."@
}

/// The character of the decimal digit `d`.
fn digit_char(d: u8) -> (c: char)
    requires
        d < 10,
    ensures
        c == digit(d as nat),
{
    (48u8 + d) as char
}

/// Appends the decimal representation of `n` to `s`.
fn push_decimal(s: &mut String, n: u128)
    ensures
        final(s)@ == old(s)@ + decimal(n as nat),
    decreases n,
{
    if n >= 10 {
        push_decimal(s, n / 10);
    }
    let d = (n % 10) as u8;
    push_char(s, digit_char(d));
    assert(old(s)@ + decimal(n as nat) =~= s@);
}


proof fn lemma_two_pow_mono(a: nat, b: nat)
    requires
        a <= b,
    ensures
        1 <= two_pow(a) <= two_pow(b),
    decreases b,
{
    if b > 0 {
        if a < b {
            lemma_two_pow_mono(a, (b - 1) as nat);
        } else {
            lemma_two_pow_mono((b - 1) as nat, (b - 1) as nat);
        }
    }
}

/// At most 11 low bits of a `u64` fall outside an `f64` significand.
proof fn lemma_f64_shift_bound(n: nat, k: nat)
    requires
        n < 0x20_0000_0000_0000 * two_pow(k),
    ensures
        f64_shift(n) <= k,
    decreases k,
{
    if n >= 0x20_0000_0000_0000 {
        if k == 0 {
            assert(false);
        } else {
            assert(two_pow(k) == 2 * two_pow((k - 1) as nat));
            lemma_f64_shift_bound(n / 2, (k - 1) as nat);
        }
    }
}

/// `a / b` rounded to the nearest integer, ties to the even one.
fn round_div_even_exec(a: u128, b: u128) -> (res: u128)
    requires
        b > 0,
    ensures
        res == round_div_even(a as nat, b as nat),
        res <= a / b + 1,
{
    let q = a / b;
    let r = a % b;
    if r > b - r || (r == b - r && q % 2 == 1) {
        assert(b >= 2);
        assert(q <= a / 2) by (nonlinear_arith)
            requires
                b >= 2,
                q == a / b,
        ;
        q + 1
    } else {
        q
    }
}

/// `size` in MiB with one decimal, as `format!("{:.1}", size as f64 / MiB)`
/// prints it.
pub fn mib_text(size: u64) -> (res: String)
    ensures
        res@ == mib_one_decimal(size as nat),
{
    let mut x: u64 = size;
    let mut e: u32 = 0;
    proof {
        assert(two_pow(11) == 2048) by {
            reveal_with_fuel(two_pow, 12);
        }
        lemma_f64_shift_bound(size as nat, 11);
    }
    while x >= 0x20_0000_0000_0000
        invariant
            f64_shift(size as nat) == e + f64_shift(x as nat),
            f64_shift(size as nat) <= 11,
        decreases x,
    {
        x = x / 2;
        e = e + 1;
    }
    let mut u: u128 = 1;
    let mut k: u32 = 0;
    while k < e
        invariant
            k <= e <= 11,
            u == two_pow(k as nat),
            two_pow(11) == 2048,
        decreases e - k,
    {
        proof {
            lemma_two_pow_mono((k + 1) as nat, 11);
        }
        u = u * 2;
        k = k + 1;
    }
    proof {
        lemma_two_pow_mono(e as nat, 11);
    }
    let n = size as u128;
    let q = round_div_even_exec(n, u);
    proof {
        vstd::arithmetic::div_mod::lemma_fundamental_div_mod(n as int, u as int);
        assert((n / u) * u <= n) by (nonlinear_arith)
            requires
                n == u * (n / u) + n % u,
                n % u >= 0,
        ;
        assert(q * u <= (n / u + 1) * u) by (nonlinear_arith)
            requires
                q <= n / u + 1,
                u >= 1,
        ;
        assert((n / u + 1) * u == (n / u) * u + u) by (nonlinear_arith);
    }
    let v = q * u;
    let tenths = round_div_even_exec(v * 10, MIB as u128);
    let mut s = String::new();
    push_decimal(&mut s, tenths / 10);
    push_char(&mut s, '.');
    push_char(&mut s, digit_char((tenths % 10) as u8));
    assert(s@ =~= mib_one_decimal(size as nat));
    s
}

impl DiffError {
    /// The message to show for this error.
    pub fn message(&self) -> (res: String)
        ensures
            match self {
                DiffError::Io(msg) => res@ == msg@,
                DiffError::TooLarge { path, size } => res@ == too_large_message(path@, *size as nat),
            },
    {
        match self {
            DiffError::Io(msg) => msg.clone(),
            DiffError::TooLarge { path, size } => {
                let mut s = String::from_str("Il file «");
                s.append(path.as_str());
                s.append("» è troppo grande (");
                let mib = mib_text(*size);
                s.append(mib.as_str());
                s.append(" MiB). Limite massimo: ");
                push_decimal(&mut s, (MAX_BYTES / MIB) as u128);
                s.append(" MiB.");
                s
            },
        }
    }
}

/// The warning given when a file exceeds the soft limit.
fn warning_text() -> (res: String)
    ensures
        res@ == large_file_warning(),
{
    let mut s = String::from_str("Uno o entrambi i file superano ");
    push_decimal(&mut s, (WARN_BYTES / MIB) as u128);
    s.append(" MiB: il calcolo del diff può richiedere più memoria e tempo.");
    s
}

/// Refuses a file of `size` bytes at `path` when it exceeds the hard
/// limit.
pub fn check_file_size(path: &str, size: u64) -> (res: Result<(), DiffError>)
    ensures
        size <= MAX_BYTES ==> res is Ok,
        size > MAX_BYTES ==> (res matches Err(DiffError::TooLarge { path: p, size: s }) && p@
            == path@ && s == size),
{
    if size > MAX_BYTES {
        return Err(DiffError::TooLarge { path: path.to_owned(), size });
    }
    Ok(())
}

/// What std's `String::from_utf8_lossy` makes of `bytes`: their UTF-8
/// decoding, with each invalid sequence replaced by U+FFFD.
pub uninterp spec fn utf8_lossy(bytes: Seq<u8>) -> Seq<char>;

/// std's `String::from_utf8`: the decoded text exactly when `bytes` are
/// valid UTF-8; otherwise the bytes are handed back.
#[verifier::external_body]
fn utf8_string(bytes: Vec<u8>) -> (res: Result<String, Vec<u8>>)
    ensures
        res is Ok <==> valid_utf8(bytes@),
        res matches Ok(s) ==> s@ == decode_utf8(bytes@),
        res matches Err(b) ==> b@ == bytes@,
{
    match String::from_utf8(bytes) {
        Ok(s) => Ok(s),
        Err(e) => Err(e.into_bytes()),
    }
}

/// std's `String::from_utf8_lossy`, as an owned string.
#[verifier::external_body]
fn utf8_lossy_string(bytes: &[u8]) -> (res: String)
    ensures
        res@ == utf8_lossy(bytes@),
{
    String::from_utf8_lossy(bytes).into_owned()
}

/// The text of a file's bytes: UTF-8, with a lossy fallback for files that
/// are not valid UTF-8.
pub fn decode_text(bytes: Vec<u8>) -> (res: String)
    ensures
        valid_utf8(bytes@) ==> res@ == decode_utf8(bytes@),
        !valid_utf8(bytes@) ==> res@ == utf8_lossy(bytes@),
{
    match utf8_string(bytes) {
        Ok(s) => s,
        Err(b) => utf8_lossy_string(b.as_slice()),
    }
}

/// Compares the texts of two files that were read as `left_text` (of
/// `left_bytes` bytes) and `right_text` (of `right_bytes` bytes), with a
/// warning when either file exceeds the soft limit.
pub fn compute_diff_files(
    left_path: &str,
    right_path: &str,
    left_text: &str,
    left_bytes: u64,
    right_text: &str,
    right_bytes: u64,
) -> (res: DiffResult)
    requires
        compared_lines(left_text@).len() + compared_lines(right_text@).len() <= u32::MAX,
        line_pairs_fit(compared_lines(left_text@), compared_lines(right_text@)),
    ensures
        res.left_path@ == left_path@,
        res.right_path@ == right_path@,
        res.left_bytes == left_bytes,
        res.right_bytes == right_bytes,
        (left_bytes > WARN_BYTES || right_bytes > WARN_BYTES) ==> (res.warning matches Some(w)
            && w@ == large_file_warning()),
        !(left_bytes > WARN_BYTES || right_bytes > WARN_BYTES) ==> res.warning is None,
        diff_outcome(left_text@, right_text@, res.rows@, res.stats, res.change_indices@),
{
    let mut warning = None;
    if left_bytes > WARN_BYTES || right_bytes > WARN_BYTES {
        warning = Some(warning_text());
    }
    let (rows, stats, change_indices) = compute_text_diff(left_text, right_text);
    DiffResult {
        left_path: left_path.to_owned(),
        right_path: right_path.to_owned(),
        left_bytes,
        right_bytes,
        warning,
        stats,
        rows,
        change_indices,
    }
}

} // verus!
