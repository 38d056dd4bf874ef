//! The renderer: mapping a compiled format and a per-request snapshot of
//! values to one output line.

use vstd::prelude::*;

verus! {

/// A request-arrival timestamp, broken into the plain calendar and clock
/// fields the renderer reads, with a numeric UTC offset in seconds.
#[derive(Clone, Copy, Debug, PartialEq, Eq, Structural)]
pub struct Timestamp {
    /// Calendar year.
    pub year: u32,
    /// Calendar month, counted from one.
    pub month: u8,
    /// Day of the month, counted from one.
    pub day: u8,
    /// Hour of the day.
    pub hour: u8,
    /// Minute of the hour.
    pub minute: u8,
    /// Second of the minute.
    pub second: u8,
    /// Microseconds within the second.
    pub microsecond: u32,
    /// The timestamp's own UTC offset, in seconds, east positive.
    pub utc_offset_secs: i32,
}

/// The elapsed time between request start and response completion, as the
/// caller measured it: whole seconds, and the sub-second part in nanoseconds
/// where the clock supplied one.
#[derive(Clone, Copy, Debug, PartialEq, Eq)]
pub struct Elapsed {
    /// Whole seconds elapsed.
    pub secs: u64,
    /// Sub-second part in nanoseconds; a missing value counts as zero.
    pub subsec_nanos: Option<u32>,
}

/// The per-request snapshot of values rendering reads. The renderer borrows
/// it read-only; every field has a defined rendering, so any snapshot renders.
pub struct RenderContext {
    /// The request's HTTP method token, as the request carried it.
    pub method: String,
    /// The request's full URL.
    pub uri: String,
    /// The response's formatted status, or `None` when no handler set one.
    pub status: Option<String>,
    /// The client's socket address.
    pub remote_addr: String,
    /// The request's arrival timestamp.
    pub request_time: Timestamp,
    /// The already-computed elapsed request/response time.
    pub response_time: Elapsed,
}

/// The mathematical value of a render context: character sequences for the
/// textual fields, and the elapsed time with a missing sub-second part
/// already counted as zero.
pub struct CtxView {
    /// The method token.
    pub method: Seq<char>,
    /// The full URL.
    pub uri: Seq<char>,
    /// The formatted status, where one was set.
    pub status: Option<Seq<char>>,
    /// The client's socket address.
    pub remote_addr: Seq<char>,
    /// The request's arrival timestamp.
    pub request_time: Timestamp,
    /// Whole seconds elapsed.
    pub secs: nat,
    /// Sub-second nanoseconds elapsed; zero where the clock gave none.
    pub nanos: nat,
}

impl View for RenderContext {
    type V = CtxView;

    open spec fn view(&self) -> CtxView {
        CtxView {
            method: self.method@,
            uri: self.uri@,
            status: match self.status {
                Some(s) => Some(s@),
                None => None,
            },
            remote_addr: self.remote_addr@,
            request_time: self.request_time,
            secs: self.response_time.secs as nat,
            nanos: match self.response_time.subsec_nanos {
                Some(n) => n as nat,
                None => 0,
            },
        }
    }
}

/// The decimal digit character for `d`.
pub open spec fn spec_digit(d: nat) -> char {
    if d == 0 {
        '0'
    } else if d == 1 {
        '1'
    } else if d == 2 {
        '2'
    } else if d == 3 {
        '3'
    } else if d == 4 {
        '4'
    } else if d == 5 {
        '5'
    } else if d == 6 {
        '6'
    } else if d == 7 {
        '7'
    } else if d == 8 {
        '8'
    } else {
        '9'
    }
}

/// The decimal digits of `n`, most significant first, with no leading zeros
/// (a single `0` for zero).
pub open spec fn spec_dec(n: nat) -> Seq<char>
    decreases n,
{
    if n < 10 {
        seq![spec_digit(n)]
    } else {
        spec_dec(n / 10).push(spec_digit(n % 10))
    }
}

/// `k` zero characters (none for a non-positive `k`).
pub open spec fn spec_zeros(k: int) -> Seq<char> {
    Seq::new(
        if k < 0 {
            0
        } else {
            k as nat
        },
        |i: int| '0',
    )
}

/// The decimal digits of `n`, zero-padded on the left to width `w`; wider
/// numbers keep all their digits.
pub open spec fn spec_pad(n: nat, w: nat) -> Seq<char> {
    spec_zeros(w - spec_dec(n).len()) + spec_dec(n)
}

/// `s` with every trailing `0` removed.
pub open spec fn spec_trim_zeros(s: Seq<char>) -> Seq<char>
    decreases s.len(),
{
    if s.len() > 0 && s.last() == '0' {
        spec_trim_zeros(s.drop_last())
    } else {
        s
    }
}

/// Ten to the `k`.
pub open spec fn pow10(k: nat) -> nat
    decreases k,
{
    if k == 0 {
        1
    } else {
        10 * pow10((k - 1) as nat)
    }
}

/// A decimal representation is never empty.
pub proof fn lemma_dec_len(n: nat)
    ensures
        spec_dec(n).len() >= 1,
    decreases n,
{
    if n >= 10 {
        lemma_dec_len(n / 10);
    }
}

/// One decimal digit as a string slice.
fn digit_str(d: u128) -> (r: &'static str)
    requires
        d < 10,
    ensures
        r@.len() == 1,
        r@[0] == spec_digit(d as nat),
{
    proof {
        reveal_strlit("0");
        reveal_strlit("1");
        reveal_strlit("2");
        reveal_strlit("3");
        reveal_strlit("4");
        reveal_strlit("5");
        reveal_strlit("6");
        reveal_strlit("7");
        reveal_strlit("8");
        reveal_strlit("9");
    }
    match d {
        0 => "0",
        1 => "1",
        2 => "2",
        3 => "3",
        4 => "4",
        5 => "5",
        6 => "6",
        7 => "7",
        8 => "8",
        _ => "9",
    }
}

/// The decimal digits of `n`, most significant first.
fn dec_u128(n: u128) -> (r: String)
    ensures
        r@ == spec_dec(n as nat),
    decreases n,
{
    if n < 10 {
        let d = digit_str(n);
        let r = d.to_owned();
        proof {
            assert(r@ =~= spec_dec(n as nat));
        }
        r
    } else {
        let mut r = dec_u128(n / 10);
        let d = digit_str(n % 10);
        r.append(d);
        proof {
            assert(r@ =~= spec_dec(n as nat));
        }
        r
    }
}

/// The decimal digits of `n`, zero-padded on the left to width `w`.
fn pad_u128(n: u128, w: usize) -> (r: String)
    ensures
        r@ == spec_pad(n as nat, w as nat),
{
    let digits = dec_u128(n);
    let len: usize = digits.as_str().unicode_len();
    let mut out = String::new();
    let mut k: usize = len;
    proof {
        assert(out@ =~= spec_zeros(k - len));
    }
    while k < w
        invariant
            len == spec_dec(n as nat).len(),
            len <= k,
            out@ == spec_zeros(k - len),
            k <= w || k == len,
        decreases w - k,
    {
        out.append("0");
        proof {
            reveal_strlit("0");
            assert(out@ =~= spec_zeros((k + 1) - len));
        }
        k = k + 1;
    }
    let r = out.concat(digits.as_str());
    proof {
        assert(r@ =~= spec_pad(n as nat, w as nat));
    }
    r
}

/// Dropping a trailing zero digit: the padded digits of a multiple of ten end
/// in `0`, and what precedes them is the padding of the quotient, one narrower.
proof fn lemma_trim_pad_step(f: nat, w: nat)
    requires
        f != 0,
        f % 10 == 0,
        w >= 1,
    ensures
        spec_trim_zeros(spec_pad(f, w)) == spec_trim_zeros(spec_pad(f / 10, (w - 1) as nat)),
{
    lemma_dec_len(f / 10);
    assert(f >= 10);
    assert(spec_dec(f) == spec_dec(f / 10).push(spec_digit(f % 10)));
    assert(spec_pad(f, w).last() == '0');
    assert(spec_pad(f, w).len() > 0);
    assert(spec_pad(f, w).drop_last() =~= spec_pad(f / 10, (w - 1) as nat));
}

/// The padded digits of a number not divisible by ten have no trailing zero.
proof fn lemma_trim_pad_done(f: nat, w: nat)
    requires
        f % 10 != 0,
    ensures
        spec_trim_zeros(spec_pad(f, w)) == spec_pad(f, w),
{
    lemma_dec_len(f);
    assert(spec_dec(f).last() == spec_digit(f % 10));
    assert(spec_pad(f, w).last() == spec_digit(f % 10));
    assert(spec_digit(f % 10) != '0');
}

/// The sub-millisecond fraction digits: `frac` (in nanoseconds, below one
/// millisecond) padded to six digits, with trailing zeros trimmed.
fn frac_text(frac: u32) -> (r: String)
    requires
        frac != 0,
        frac < 1000000,
    ensures
        r@ == spec_trim_zeros(spec_pad(frac as nat, 6)),
{
    let mut f: u32 = frac;
    let mut w: usize = 6;
    proof {
        assert(pow10(0) == 1);
        assert(pow10(1) == 10);
        assert(pow10(2) == 100);
        assert(pow10(3) == 1000);
        assert(pow10(4) == 10000);
        assert(pow10(5) == 100000);
        assert(pow10(6) == 1000000);
    }
    while f % 10 == 0
        invariant
            f != 0,
            1 <= w <= 6,
            f < pow10(w as nat),
            spec_trim_zeros(spec_pad(frac as nat, 6)) == spec_trim_zeros(
                spec_pad(f as nat, w as nat),
            ),
        decreases w,
    {
        proof {
            assert(f >= 10);
            if w == 1 {
                assert(pow10(0) == 1);
                assert(pow10(1) == 10);
                assert(false);
            }
            lemma_trim_pad_step(f as nat, w as nat);
            assert(pow10(w as nat) == 10 * pow10((w - 1) as nat));
            assert(((f / 10) as nat) < pow10((w - 1) as nat)) by {
                assert((f as nat) < 10 * pow10((w - 1) as nat));
                assert(((f as nat) / 10) < pow10((w - 1) as nat)) by (nonlinear_arith)
                    requires
                        (f as nat) < 10 * pow10((w - 1) as nat),
                ;
            }
        }
        f = f / 10;
        w = w - 1;
    }
    proof {
        lemma_trim_pad_done(f as nat, w as nat);
    }
    pad_u128(f as u128, w)
}

/// The elapsed-time text: the exact decimal millisecond value, computed as
/// whole seconds times a thousand plus sub-second nanoseconds over a million,
/// with the sub-millisecond fraction written only when it is not zero.
pub open spec fn spec_elapsed_text(secs: nat, nanos: nat) -> Seq<char> {
    let whole = secs * 1000 + nanos / 1000000;
    let frac = nanos % 1000000;
    if frac == 0 {
        spec_dec(whole)
    } else {
        spec_dec(whole) + seq!['.'] + spec_trim_zeros(spec_pad(frac, 6))
    }
}

/// The elapsed time in milliseconds as decimal text.
fn elapsed_text(secs: u64, nanos: u32) -> (r: String)
    ensures
        r@ == spec_elapsed_text(secs as nat, nanos as nat),
{
    let whole: u128 = (secs as u128) * 1000 + ((nanos / 1000000) as u128);
    let frac: u32 = nanos % 1000000;
    if frac == 0 {
        dec_u128(whole)
    } else {
        let mut r = dec_u128(whole);
        r.append(".");
        let f = frac_text(frac);
        r.append(f.as_str());
        proof {
            reveal_strlit(".");
            assert(r@ =~= spec_elapsed_text(secs as nat, nanos as nat));
        }
        r
    }
}

/// The numeric UTC-offset suffix: a sign, then hours and minutes, two digits
/// each.
pub open spec fn spec_offset_text(off: int) -> Seq<char> {
    let a = if off >= 0 {
        off
    } else {
        -off
    };
    (if off >= 0 {
        seq!['+']
    } else {
        seq!['-']
    }) + spec_pad((a / 3600) as nat, 2) + spec_pad(((a % 3600) / 60) as nat, 2)
}

/// The request-time text: year, month and day, a `T`, hours, minutes and
/// seconds, a six-digit microsecond fraction, a literal `Z`, and the
/// timestamp's own numeric UTC offset.
pub open spec fn spec_timestamp_text(t: Timestamp) -> Seq<char> {
    spec_pad(t.year as nat, 4) + seq!['-'] + spec_pad(t.month as nat, 2) + seq!['-'] + spec_pad(
        t.day as nat,
        2,
    ) + seq!['T'] + spec_pad(t.hour as nat, 2) + seq![':'] + spec_pad(t.minute as nat, 2)
        + seq![':'] + spec_pad(t.second as nat, 2) + seq!['.'] + spec_pad(t.microsecond as nat, 6)
        + seq!['Z'] + spec_offset_text(t.utc_offset_secs as int)
}

/// The timestamp rendered in the fixed pattern.
#[verifier::rlimit(50)]
fn timestamp_text(t: &Timestamp) -> (r: String)
    ensures
        r@ == spec_timestamp_text(*t),
{
    let mut r = pad_u128(t.year as u128, 4);
    r.append("-");
    let month = pad_u128(t.month as u128, 2);
    r.append(month.as_str());
    r.append("-");
    let day = pad_u128(t.day as u128, 2);
    r.append(day.as_str());
    r.append("T");
    let hour = pad_u128(t.hour as u128, 2);
    r.append(hour.as_str());
    r.append(":");
    let minute = pad_u128(t.minute as u128, 2);
    r.append(minute.as_str());
    r.append(":");
    let second = pad_u128(t.second as u128, 2);
    r.append(second.as_str());
    r.append(".");
    let micro = pad_u128(t.microsecond as u128, 6);
    r.append(micro.as_str());
    r.append("Z");
    let off64: i64 = t.utc_offset_secs as i64;
    let a: u64 = if off64 >= 0 {
        off64 as u64
    } else {
        (-off64) as u64
    };
    if off64 >= 0 {
        r.append("+");
    } else {
        r.append("-");
    }
    let hours = pad_u128((a / 3600) as u128, 2);
    r.append(hours.as_str());
    let minutes = pad_u128(((a % 3600) / 60) as u128, 2);
    r.append(minutes.as_str());
    proof {
        reveal_strlit("-");
        reveal_strlit("T");
        reveal_strlit(":");
        reveal_strlit(".");
        reveal_strlit("Z");
        reveal_strlit("+");
        assert("-"@ =~= seq!['-']);
        assert("T"@ =~= seq!['T']);
        assert(":"@ =~= seq![':']);
        assert("."@ =~= seq!['.']);
        assert("Z"@ =~= seq!['Z']);
        assert("+"@ =~= seq!['+']);
        assert(r@ == spec_timestamp_text(*t));
    }
    r
}

/// The text one format unit contributes: a literal verbatim, a field from the
/// context, with fixed fallbacks where a value is absent.
pub open spec fn spec_render_unit(u: crate::format::UnitView, ctx: CtxView) -> Seq<char> {
    match u {
        crate::format::UnitView::Literal(s) => s,
        crate::format::UnitView::FieldPlaceholder(k) => match k {
            crate::format::FieldKind::Method => ctx.method,
            crate::format::FieldKind::Uri => ctx.uri,
            crate::format::FieldKind::Status => match ctx.status {
                Some(s) => s,
                None => "<missing status code>"@,
            },
            crate::format::FieldKind::ResponseTimeMs => spec_elapsed_text(ctx.secs, ctx.nanos)
                + " ms"@,
            crate::format::FieldKind::RemoteAddr => ctx.remote_addr,
            crate::format::FieldKind::RequestTime => spec_timestamp_text(ctx.request_time),
        },
    }
}

/// The whole rendered line: each unit's text in order, concatenated with
/// nothing in between.
pub open spec fn spec_render(units: Seq<crate::format::UnitView>, ctx: CtxView) -> Seq<char>
    decreases units.len(),
{
    if units.len() == 0 {
        Seq::<char>::empty()
    } else {
        spec_render_unit(units[0], ctx) + spec_render(units.drop_first(), ctx)
    }
}

/// Rendering one more unit appends that unit's text.
pub proof fn lemma_render_push(units: Seq<crate::format::UnitView>, u: crate::format::UnitView, ctx: CtxView)
    ensures
        spec_render(units.push(u), ctx) == spec_render(units, ctx) + spec_render_unit(u, ctx),
    decreases units.len(),
{
    let tail = units.push(u).drop_first();
    if units.len() == 0 {
        assert(tail =~= Seq::<crate::format::UnitView>::empty());
        assert(spec_render(units.push(u), ctx) == spec_render_unit(u, ctx) + spec_render(
            tail,
            ctx,
        ));
        assert(spec_render(tail, ctx) == Seq::<char>::empty());
        assert(spec_render(units, ctx) == Seq::<char>::empty());
        assert(spec_render_unit(u, ctx) + Seq::<char>::empty() =~= Seq::<char>::empty()
            + spec_render_unit(u, ctx));
    } else {
        assert(tail =~= units.drop_first().push(u));
        lemma_render_push(units.drop_first(), u, ctx);
        assert(spec_render(units.push(u), ctx) == spec_render_unit(units[0], ctx) + spec_render(
            tail,
            ctx,
        ));
        assert(spec_render(tail, ctx) == spec_render(units.drop_first(), ctx) + spec_render_unit(
            u,
            ctx,
        ));
        assert(spec_render_unit(units[0], ctx) + (spec_render(units.drop_first(), ctx)
            + spec_render_unit(u, ctx)) =~= (spec_render_unit(units[0], ctx) + spec_render(
            units.drop_first(),
            ctx,
        )) + spec_render_unit(u, ctx));
    }
}

/// The text of one format unit.
fn render_unit(u: &crate::format::FormatUnit, ctx: &RenderContext) -> (r: String)
    ensures
        r@ == spec_render_unit(u@, ctx@),
{
    match u {
        crate::format::FormatUnit::Literal(s) => s.clone(),
        crate::format::FormatUnit::FieldPlaceholder(k) => match k {
            crate::format::FieldKind::Method => ctx.method.clone(),
            crate::format::FieldKind::Uri => ctx.uri.clone(),
            crate::format::FieldKind::Status => match &ctx.status {
                Some(s) => s.clone(),
                None => "<missing status code>".to_owned(),
            },
            crate::format::FieldKind::ResponseTimeMs => {
                let nanos: u32 = match ctx.response_time.subsec_nanos {
                    Some(n) => n,
                    None => 0,
                };
                let mut r = elapsed_text(ctx.response_time.secs, nanos);
                r.append(" ms");
                r
            },
            crate::format::FieldKind::RemoteAddr => ctx.remote_addr.clone(),
            crate::format::FieldKind::RequestTime => timestamp_text(&ctx.request_time),
        },
    }
}

/// Renders a compiled format with a per-request snapshot of values.
///
/// Rendering is pure and total: it always succeeds, for every compiled format
/// and every context, and produces exactly the concatenation of each unit's
/// text in order.
pub fn render(format: &crate::format::Format, ctx: &RenderContext) -> (r: String)
    ensures
        r@ == spec_render(format@, ctx@),
{
    let m: usize = format.0.len();
    let mut out = String::new();
    let mut idx: usize = 0;
    proof {
        assert(format@.subrange(0, 0) =~= Seq::<crate::format::UnitView>::empty());
    }
    while idx < m
        invariant
            m == format.0.len(),
            m == format@.len(),
            idx <= m,
            out@ == spec_render(format@.subrange(0, idx as int), ctx@),
        decreases m - idx,
    {
        let piece = render_unit(&format.0[idx], ctx);
        out.append(piece.as_str());
        proof {
            assert(format@.subrange(0, idx + 1) =~= format@.subrange(0, idx as int).push(
                format@[idx as int],
            ));
            lemma_render_push(format@.subrange(0, idx as int), format@[idx as int], ctx@);
        }
        idx = idx + 1;
    }
    proof {
        assert(format@.subrange(0, m as int) =~= format@);
    }
    out
}

/// With no status set, a status placeholder renders as the fixed sentinel,
/// whatever the rest of the context holds.
pub proof fn lemma_missing_status_sentinel(ctx: CtxView)
    requires
        ctx.status is None,
    ensures
        spec_render(
            seq![crate::format::UnitView::FieldPlaceholder(crate::format::FieldKind::Status)],
            ctx,
        ) == "<missing status code>"@,
{
    let units = seq![
        crate::format::UnitView::FieldPlaceholder(crate::format::FieldKind::Status),
    ];
    assert(units.drop_first() =~= Seq::<crate::format::UnitView>::empty());
    assert(spec_render(units.drop_first(), ctx) == Seq::<char>::empty());
    assert("<missing status code>"@ + Seq::<char>::empty() =~= "<missing status code>"@);
}

} // verus!
