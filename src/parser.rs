//! Recognising the three shapes of a trace line and reading their fields.
use vstd::prelude::*;
use crate::numbers::{all_digits, decimal_seconds, digit, digits_value, parse_return_value, parse_seconds, return_value};
use crate::text::{
    chars_of, contains, find, is_space, lacks, lemma_contains_sub, lemma_find_char_absent,
    lemma_find_char_after, lemma_rfind_char_before, find_char_in, find_in, rfind_char, rfind_char_in, starts_with,
    starts_with_at, text_of, trim, trim_end, trim_in, trim_start, trim_start_in,
};
use crate::types::{opt_i64, opt_text, opt_view, DecimalSeconds, Syscall, SyscallView};

verus! {

/// What follows `= ` on a completed call.
pub struct Outcome {
    pub return_value: Option<i64>,
    pub error_code: Option<String>,
    pub error_message: Option<String>,
    pub duration: Option<DecimalSeconds>,
}

pub struct OutcomeView {
    pub return_value: Option<int>,
    pub error_code: Option<Seq<char>>,
    pub error_message: Option<Seq<char>>,
    pub duration: Option<DecimalSeconds>,
}

impl View for Outcome {
    type V = OutcomeView;

    open spec fn view(&self) -> OutcomeView {
        OutcomeView {
            return_value: opt_i64(self.return_value),
            error_code: opt_text(self.error_code),
            error_message: opt_text(self.error_message),
            duration: self.duration,
        }
    }
}

pub open spec fn outcome_view(o: Option<Outcome>) -> Option<OutcomeView> {
    match o {
        Some(t) => Some(t@),
        None => None,
    }
}

pub open spec fn unfinished_marker() -> Seq<char> {
    "<unfinished ...>"@
}

pub open spec fn resumed_marker() -> Seq<char> {
    "resumed>"@
}

pub open spec fn resumed_open() -> Seq<char> {
    "<... "@
}

pub open spec fn resumed_close() -> Seq<char> {
    " resumed>"@
}

pub open spec fn spaced_equals() -> Seq<char> {
    " = "@
}

/// The return value and error of a trimmed region: the first space-separated
/// token is the return value; what follows it, if anything, is the error code,
/// with the message in parentheses when there are any.
pub open spec fn result_fields(b: Seq<char>, dur: Option<DecimalSeconds>) -> Option<OutcomeView> {
    match find(b, seq![' ']) {
        None => Some(
            OutcomeView { return_value: return_value(b), error_code: None, error_message: None, duration: dur },
        ),
        Some(k) => {
            let e = b.skip(k + 1);
            let rv = return_value(b.take(k));
            match find(e, seq!['(']) {
                None => Some(
                    OutcomeView { return_value: rv, error_code: Some(e), error_message: None, duration: dur },
                ),
                Some(pp) => match rfind_char(e, ')') {
                    Some(me) => if me > pp {
                        Some(
                            OutcomeView {
                                return_value: rv,
                                error_code: Some(trim(e.take(pp))),
                                error_message: Some(e.subrange(pp + 1, me)),
                                duration: dur,
                            },
                        )
                    } else {
                        None
                    },
                    None => None,
                },
            }
        },
    }
}

/// The text after `= `: the result, then an optional `<seconds>` block at the end.
#[verifier::opaque]
pub open spec fn outcome(a: Seq<char>) -> Option<OutcomeView> {
    match rfind_char(a, '<') {
        Some(ds) => match rfind_char(a, '>') {
            Some(de) => result_fields(
                trim(a.take(ds)),
                if de > ds {
                    decimal_seconds(a.subrange(ds + 1, de))
                } else {
                    None
                },
            ),
            None => None,
        },
        None => result_fields(trim(a), None),
    }
}

pub open spec fn event(
    ts: Seq<char>,
    name: Seq<char>,
    args: Seq<char>,
    o: OutcomeView,
    resumed: bool,
) -> SyscallView {
    SyscallView {
        timestamp: ts,
        syscall: name,
        args: args,
        return_value: o.return_value,
        error_code: o.error_code,
        error_message: o.error_message,
        duration: o.duration,
        unfinished: false,
        resumed: resumed,
    }
}

/// `timestamp name(args) = result <seconds>`; the arguments end at the first `)`.
pub open spec fn regular(s: Seq<char>) -> Option<SyscallView> {
    match find(s, seq![' ']) {
        None => None,
        Some(sp) => {
            let rest = s.skip(sp + 1);
            match find(rest, seq!['(']) {
                None => None,
                Some(p) => {
                    let inner = rest.skip(p + 1);
                    match find(inner, seq![')']) {
                        None => None,
                        Some(c) => {
                            let t = trim_start(inner.skip(c + 1));
                            if !starts_with(t, seq!['=', ' ']) {
                                None
                            } else {
                                match outcome(trim_start(t.skip(1))) {
                                    None => None,
                                    Some(o) => Some(
                                        event(s.take(sp), trim(rest.take(p)), inner.take(c), o, false),
                                    ),
                                }
                            }
                        },
                    }
                },
            }
        },
    }
}

/// `timestamp name(args <unfinished ...>) = ?`
pub open spec fn unfinished(s: Seq<char>) -> Option<SyscallView> {
    if !contains(s, unfinished_marker()) {
        None
    } else {
        match find(s, seq![' ']) {
            None => None,
            Some(sp) => {
                let rest = s.skip(sp + 1);
                match find(rest, seq!['(']) {
                    None => None,
                    Some(p) => {
                        let inner = rest.skip(p + 1);
                        match find(inner, unfinished_marker()) {
                            None => None,
                            Some(u) => Some(
                                SyscallView {
                                    timestamp: s.take(sp),
                                    syscall: trim(rest.take(p)),
                                    args: trim(inner.take(u)),
                                    return_value: None,
                                    error_code: None,
                                    error_message: None,
                                    duration: None,
                                    unfinished: true,
                                    resumed: false,
                                },
                            ),
                        }
                    },
                }
            },
        }
    }
}

/// `timestamp <... name resumed>args) = result <seconds>`
pub open spec fn resumed(s: Seq<char>) -> Option<SyscallView> {
    if !contains(s, resumed_marker()) {
        None
    } else {
        match find(s, seq![' ']) {
            None => None,
            Some(sp) => {
                let rest = s.skip(sp + 1);
                match (find(rest, resumed_open()), find(rest, resumed_close())) {
                    (Some(rs), Some(re)) => if re < rs + resumed_open().len() {
                        None
                    } else {
                        let name = rest.subrange(rs + resumed_open().len(), re);
                        let after = rest.skip(re + resumed_close().len());
                        match (find(after, seq![')']), find(after, spaced_equals())) {
                            (Some(c), Some(e)) => match outcome(
                                after.skip(e + spaced_equals().len()),
                            ) {
                                Some(o) => Some(event(s.take(sp), name, after.take(c), o, true)),
                                None => None,
                            },
                            _ => None,
                        }
                    },
                    _ => None,
                }
            },
        }
    }
}

/// Any line: unfinished first, then resumed, then regular.
pub open spec fn line_event(s: Seq<char>) -> Option<SyscallView> {
    if unfinished(s) is Some {
        unfinished(s)
    } else if resumed(s) is Some {
        resumed(s)
    } else {
        regular(s)
    }
}

fn parse_result_fields(
    line: &str,
    v: &Vec<char>,
    lo: usize,
    hi: usize,
    dur: Option<DecimalSeconds>,
) -> (r: Option<Outcome>)
    requires
        lo <= hi <= v.len(),
        line@ == v@,
    ensures
        outcome_view(r) == result_fields(v@.subrange(lo as int, hi as int), dur),
{
    let ghost b = v@.subrange(lo as int, hi as int);
    match find_char_in(v, lo, hi, ' ') {
        None => {
            let rv = parse_return_value(v, lo, hi);
            Some(Outcome { return_value: rv, error_code: None, error_message: None, duration: dur })
        },
        Some(k) => {
            assert(b.take(k - lo) =~= v@.subrange(lo as int, k as int));
            assert(b.skip(k - lo + 1) =~= v@.subrange(k + 1, hi as int));
            let ghost e = v@.subrange(k + 1, hi as int);
            let rv = parse_return_value(v, lo, k);
            match find_char_in(v, k + 1, hi, '(') {
                None => Some(
                    Outcome {
                        return_value: rv,
                        error_code: Some(text_of(line, k + 1, hi)),
                        error_message: None,
                        duration: dur,
                    },
                ),
                Some(pp) => match rfind_char_in(v, k + 1, hi, ')') {
                    None => None,
                    Some(me) => {
                        if me > pp {
                            let (c0, c1) = trim_in(v, k + 1, pp);
                            assert(e.take(pp - (k + 1)) =~= v@.subrange(k + 1, pp as int));
                            assert(e.subrange(pp - (k + 1) + 1, me - (k + 1)) =~= v@.subrange(
                                pp + 1,
                                me as int,
                            ));
                            Some(
                                Outcome {
                                    return_value: rv,
                                    error_code: Some(text_of(line, c0, c1)),
                                    error_message: Some(text_of(line, pp + 1, me)),
                                    duration: dur,
                                },
                            )
                        } else {
                            None
                        }
                    },
                },
            }
        },
    }
}

fn parse_outcome(line: &str, v: &Vec<char>, lo: usize, hi: usize) -> (r: Option<Outcome>)
    requires
        lo <= hi <= v.len(),
        line@ == v@,
    ensures
        outcome_view(r) == outcome(v@.subrange(lo as int, hi as int)),
{
    let ghost a = v@.subrange(lo as int, hi as int);
    proof {
        reveal(outcome);
    }
    match rfind_char_in(v, lo, hi, '<') {
        Some(ds) => match rfind_char_in(v, lo, hi, '>') {
            None => None,
            Some(de) => {
                let dur = if de > ds {
                    assert(a.subrange(ds - lo + 1, de - lo) =~= v@.subrange(ds + 1, de as int));
                    parse_seconds(v, ds + 1, de)
                } else {
                    None
                };
                assert(a.take(ds - lo) =~= v@.subrange(lo as int, ds as int));
                let (b0, b1) = trim_in(v, lo, ds);
                parse_result_fields(line, v, b0, b1, dur)
            },
        },
        None => {
            let (b0, b1) = trim_in(v, lo, hi);
            parse_result_fields(line, v, b0, b1, None)
        },
    }
}

fn make_event(
    line: &str,
    ts_end: usize,
    name: (usize, usize),
    args: (usize, usize),
    o: Outcome,
    resumed: bool,
) -> (r: Syscall)
    requires
        ts_end <= line@.len(),
        name.0 <= name.1 <= line@.len(),
        args.0 <= args.1 <= line@.len(),
    ensures
        r@ == event(
            line@.take(ts_end as int),
            line@.subrange(name.0 as int, name.1 as int),
            line@.subrange(args.0 as int, args.1 as int),
            o@,
            resumed,
        ),
{
    assert(line@.take(ts_end as int) =~= line@.subrange(0, ts_end as int));
    Syscall {
        timestamp: text_of(line, 0, ts_end),
        syscall: text_of(line, name.0, name.1),
        args: text_of(line, args.0, args.1),
        return_value: o.return_value,
        error_code: o.error_code,
        error_message: o.error_message,
        duration: o.duration,
        unfinished: false,
        resumed: resumed,
    }
}

/// Parses a completed call: `timestamp name(args) = result <seconds>`.
pub fn parse_regular(line: &str) -> (r: Option<Syscall>)
    ensures
        opt_view(r) == regular(line@),
{
    let v = chars_of(line);
    let n = v.len();
    let ghost s = v@;
    assert(s.subrange(0, n as int) =~= s);
    let sp = match find_char_in(&v, 0, n, ' ') {
        Some(k) => k,
        None => return None,
    };
    let ghost rest = s.skip(sp + 1);
    assert(rest =~= s.subrange(sp + 1, n as int));
    let p = match find_char_in(&v, sp + 1, n, '(') {
        Some(k) => k,
        None => return None,
    };
    let ghost inner = rest.skip(p - sp);
    assert(inner =~= s.subrange(p + 1, n as int));
    assert(rest.take(p - (sp + 1)) =~= s.subrange(sp + 1, p as int));
    let c = match find_char_in(&v, p + 1, n, ')') {
        Some(k) => k,
        None => return None,
    };
    assert(inner.skip(c - p) =~= s.subrange(c + 1, n as int));
    assert(inner.take(c - (p + 1)) =~= s.subrange(p + 1, c as int));
    let t = trim_start_in(&v, c + 1, n);
    let eq_sp = chars_of("= ");
    proof {
        reveal_strlit("= ");
        assert(eq_sp@ =~= seq!['=', ' ']);
    }
    if !starts_with_at(&v, t, n, &eq_sp) {
        return None;
    }
    assert(s.subrange(t as int, n as int).skip(1) =~= s.subrange(t + 1, n as int));
    let a = trim_start_in(&v, t + 1, n);
    let o = match parse_outcome(line, &v, a, n) {
        Some(o) => o,
        None => return None,
    };
    let name = trim_in(&v, sp + 1, p);
    Some(make_event(line, sp, name, (p + 1, c), o, false))
}

/// Parses an interrupted call: `timestamp name(args <unfinished ...>) = ?`.
pub fn parse_unfinished(line: &str) -> (r: Option<Syscall>)
    ensures
        opt_view(r) == unfinished(line@),
{
    let v = chars_of(line);
    let n = v.len();
    let ghost s = v@;
    assert(s.subrange(0, n as int) =~= s);
    let marker = chars_of("<unfinished ...>");
    if find_in(&v, 0, n, &marker).is_none() {
        return None;
    }
    let sp = match find_char_in(&v, 0, n, ' ') {
        Some(k) => k,
        None => return None,
    };
    let ghost rest = s.skip(sp + 1);
    assert(rest =~= s.subrange(sp + 1, n as int));
    let p = match find_char_in(&v, sp + 1, n, '(') {
        Some(k) => k,
        None => return None,
    };
    let ghost inner = rest.skip(p - sp);
    assert(inner =~= s.subrange(p + 1, n as int));
    assert(rest.take(p - (sp + 1)) =~= s.subrange(sp + 1, p as int));
    let u = match find_in(&v, p + 1, n, &marker) {
        Some(k) => k,
        None => return None,
    };
    assert(inner.take(u - (p + 1)) =~= s.subrange(p + 1, u as int));
    let name = trim_in(&v, sp + 1, p);
    let args = trim_in(&v, p + 1, u);
    assert(s.take(sp as int) =~= s.subrange(0, sp as int));
    Some(
        Syscall {
            timestamp: text_of(line, 0, sp),
            syscall: text_of(line, name.0, name.1),
            args: text_of(line, args.0, args.1),
            return_value: None,
            error_code: None,
            error_message: None,
            duration: None,
            unfinished: true,
            resumed: false,
        },
    )
}

/// Parses the completion of an interrupted call:
/// `timestamp <... name resumed>args) = result <seconds>`.
pub fn parse_resumed(line: &str) -> (r: Option<Syscall>)
    ensures
        opt_view(r) == resumed(line@),
{
    let v = chars_of(line);
    let n = v.len();
    let ghost s = v@;
    assert(s.subrange(0, n as int) =~= s);
    let marker = chars_of("resumed>");
    if find_in(&v, 0, n, &marker).is_none() {
        return None;
    }
    let sp = match find_char_in(&v, 0, n, ' ') {
        Some(k) => k,
        None => return None,
    };
    let ghost rest = s.skip(sp + 1);
    assert(rest =~= s.subrange(sp + 1, n as int));
    let open = chars_of("<... ");
    let close = chars_of(" resumed>");
    let rs = find_in(&v, sp + 1, n, &open);
    let re = find_in(&v, sp + 1, n, &close);
    let (rs, re) = match (rs, re) {
        (Some(a), Some(b)) => (a, b),
        _ => return None,
    };
    proof {
        crate::text::lemma_find_bounds(rest, close@);
    }
    if re < rs || re - rs < open.len() {
        return None;
    }
    let after_start = re + close.len();
    let ghost after = rest.skip(after_start - (sp + 1));
    assert(after =~= s.subrange(after_start as int, n as int));
    assert(rest.subrange(rs + open.len() - (sp + 1), re - (sp + 1)) =~= s.subrange(
        rs + open.len(),
        re as int,
    ));
    let eq = chars_of(" = ");
    let c = find_char_in(&v, after_start, n, ')');
    let e = find_in(&v, after_start, n, &eq);
    let (c, e) = match (c, e) {
        (Some(a), Some(b)) => (a, b),
        _ => return None,
    };
    proof {
        crate::text::lemma_find_bounds(after, eq@);
    }
    let tail_start = e + eq.len();
    assert(after.skip(tail_start - after_start) =~= s.subrange(tail_start as int, n as int));
    assert(after.take(c - after_start) =~= s.subrange(after_start as int, c as int));
    let o = match parse_outcome(line, &v, tail_start, n) {
        Some(o) => o,
        None => return None,
    };
    Some(make_event(line, sp, (rs + open.len(), re), (after_start, c), o, true))
}

/// Parses any trace line, trying the unfinished shape, then the resumed
/// shape, then the regular one; `None` when none of them fits.
pub fn parse_line(line: &str) -> (r: Option<Syscall>)
    ensures
        opt_view(r) == line_event(line@),
{
    match parse_unfinished(line) {
        Some(e) => Some(e),
        None => match parse_resumed(line) {
            Some(e) => Some(e),
            None => parse_regular(line),
        },
    }
}

/// A line without `(` yields no event unless it holds both `resumed>` and ` = `.
pub proof fn lemma_no_markers_no_event(s: Seq<char>)
    requires
        !contains(s, seq!['(']),
        !contains(s, resumed_marker()) || !contains(s, spaced_equals()),
    ensures
        line_event(s) is None,
{
    if let Some(sp) = find(s, seq![' ']) {
        crate::text::lemma_find_bounds(s, seq![' ']);
        let rest = s.skip(sp + 1);
        assert(rest =~= s.subrange(sp + 1, s.len() as int));
        if contains(rest, seq!['(']) {
            lemma_contains_sub(s, sp + 1, s.len() as int, seq!['(']);
        }
        if let (Some(rs), Some(re)) = (find(rest, resumed_open()), find(rest, resumed_close())) {
            crate::text::lemma_find_bounds(rest, resumed_close());
            if re >= rs + resumed_open().len() {
                let a0 = sp + 1 + re + resumed_close().len();
                let after = rest.skip(re + resumed_close().len());
                assert(after =~= s.subrange(a0, s.len() as int));
                if contains(after, spaced_equals()) {
                    lemma_contains_sub(s, a0, s.len() as int, spaced_equals());
                }
            }
        }
    }
}

/// A line whose first `(` after the timestamp is followed by
/// `<unfinished ...>` yields an unfinished event with no result, whose
/// arguments are the trimmed text between that `(` and the marker.
pub proof fn lemma_unfinished_event(s: Seq<char>, sp: int, p: int)
    requires
        find(s, seq![' ']) == Some(sp),
        find(s.skip(sp + 1), seq!['(']) == Some(p),
        contains(s.skip(sp + 1).skip(p + 1), unfinished_marker()),
    ensures
        line_event(s) matches Some(e) && e.unfinished && !e.resumed && e.return_value is None
            && e.duration is None && e.error_code is None && e.error_message is None && e.args
            == trim(
            s.skip(sp + 1).skip(p + 1).take(
                find(s.skip(sp + 1).skip(p + 1), unfinished_marker())->0,
            ),
        ),
{
    crate::text::lemma_find_bounds(s, seq![' ']);
    crate::text::lemma_find_bounds(s.skip(sp + 1), seq!['(']);
    let inner = s.skip(sp + 1).skip(p + 1);
    assert(inner =~= s.subrange(sp + 1 + p + 1, s.len() as int));
    lemma_contains_sub(s, sp + 1 + p + 1, s.len() as int, unfinished_marker());
}

/// A line that does not hold `<unfinished ...>` and has the resumed shape
/// yields a resumed event named by the text between `<... ` and ` resumed>`.
pub proof fn lemma_resumed_event(s: Seq<char>)
    requires
        !contains(s, unfinished_marker()),
        resumed(s) is Some,
    ensures
        line_event(s) matches Some(e) && e.resumed && !e.unfinished && ({
            let rest = s.skip(find(s, seq![' '])->0 + 1);
            e.syscall == rest.subrange(
                find(rest, resumed_open())->0 + resumed_open().len(),
                find(rest, resumed_close())->0,
            )
        }),
{
}

/// The line `ts name(args) = digits <seconds>`.
pub open spec fn complete_line(
    ts: Seq<char>,
    name: Seq<char>,
    args: Seq<char>,
    digits: Seq<char>,
    dur: Seq<char>,
) -> Seq<char> {
    ts + seq![' '] + name + seq!['('] + args + seq![')', ' ', '=', ' '] + digits + seq![' ', '<']
        + dur + seq!['>']
}

/// A completed line with a non-negative decimal return value and a
/// well-formed duration yields a regular event that carries exactly those
/// two values.
pub proof fn lemma_complete_line(
    ts: Seq<char>,
    name: Seq<char>,
    args: Seq<char>,
    digits: Seq<char>,
    dur: Seq<char>,
)
    requires
        lacks(ts, ' '),
        lacks(name, '('),
        lacks(args, ')'),
        digits.len() > 0,
        all_digits(digits, 10),
        digits_value(digits, 10) <= 0x7fff_ffff_ffff_ffff,
        forall|i: int| 0 <= i < dur.len() ==> (#[trigger] digit(dur[i], 10)) is Some || dur[i] == '.',
        decimal_seconds(dur) is Some,
        !contains(complete_line(ts, name, args, digits, dur), unfinished_marker()),
        !contains(complete_line(ts, name, args, digits, dur), resumed_marker()),
    ensures
        line_event(complete_line(ts, name, args, digits, dur)) == Some(
            SyscallView {
                timestamp: ts,
                syscall: trim(name),
                args: args,
                return_value: Some(digits_value(digits, 10) as int),
                error_code: None,
                error_message: None,
                duration: decimal_seconds(dur),
                unfinished: false,
                resumed: false,
            },
        ),
{
    let s = complete_line(ts, name, args, digits, dur);
    let tail = seq![')', ' ', '=', ' '] + digits + seq![' ', '<'] + dur + seq!['>'];
    let rest = name + seq!['('] + args + tail;
    assert(s =~= ts + (seq![' '] + rest));
    lemma_find_char_after(ts, seq![' '] + rest, ' ');
    let sp = ts.len() as int;
    assert(s.skip(sp + 1) =~= rest);
    assert(s.take(sp) =~= ts);
    assert(rest =~= name + (seq!['('] + args + tail));
    lemma_find_char_after(name, seq!['('] + args + tail, '(');
    let p = name.len() as int;
    let inner = args + tail;
    assert(rest.skip(p + 1) =~= inner);
    assert(rest.take(p) =~= name);
    lemma_find_char_after(args, tail, ')');
    let c = args.len() as int;
    assert(inner.take(c) =~= args);
    let a = digits + seq![' ', '<'] + dur + seq!['>'];
    let after = seq![' ', '=', ' '] + a;
    assert(inner.skip(c + 1) =~= after);
    assert(digit(digits[0], 10) is Some);
    assert(a[0] == digits[0]);
    lemma_after_equals(a);
    lemma_outcome_of(digits, dur);
    lemma_regular_steps(s, sp, p, c, a);
    assert(unfinished(s) is None);
    assert(resumed(s) is None);
}

/// The text after `= ` of such a line: the decimal digits, a space, and the
/// duration block.
proof fn lemma_outcome_of(digits: Seq<char>, dur: Seq<char>)
    requires
        digits.len() > 0,
        all_digits(digits, 10),
        digits_value(digits, 10) <= 0x7fff_ffff_ffff_ffff,
        forall|i: int| 0 <= i < dur.len() ==> (#[trigger] digit(dur[i], 10)) is Some || dur[i] == '.',
    ensures
        outcome(digits + seq![' ', '<'] + dur + seq!['>']) == Some(
            OutcomeView {
                return_value: Some(digits_value(digits, 10) as int),
                error_code: None,
                error_message: None,
                duration: decimal_seconds(dur),
            },
        ),
{
    reveal(outcome);
    let a = digits + seq![' ', '<'] + dur + seq!['>'];
    // the duration block
    assert(lacks(dur + seq!['>'], '<')) by {
        assert forall|i: int| 0 <= i < (dur + seq!['>']).len() implies (dur + seq!['>'])[i] != '<' by {
            if i < dur.len() {
                assert(digit(dur[i], 10) is Some || dur[i] == '.');
            }
        }
    }
    assert(a =~= (digits + seq![' ']) + seq!['<'] + (dur + seq!['>']));
    lemma_rfind_char_before(digits + seq![' '], dur + seq!['>'], '<');
    assert(a =~= (digits + seq![' ', '<'] + dur) + seq!['>'] + Seq::<char>::empty());
    lemma_rfind_char_before(digits + seq![' ', '<'] + dur, Seq::<char>::empty(), '>');
    let ds = digits.len() + 1int;
    let de = a.len() - 1int;
    assert(a.subrange(ds + 1, de) =~= dur);
    let b = digits + seq![' '];
    assert(a.take(ds) =~= b);
    assert(trim_start(b) == b);
    assert(b[0] == digits[0]);
    assert(digit(digits[0], 10) is Some);
    assert(b.last() == ' ');
    assert(b.drop_last() =~= digits);
    assert(digit(digits.last(), 10) is Some);
    assert(!is_space(digits.last()));
    assert(trim_end(digits) == digits);
    assert(trim(b) == digits);
    // the return value
    assert(lacks(digits, ' ')) by {
        assert forall|i: int| 0 <= i < digits.len() implies digits[i] != ' ' by {
            assert(digit(digits[i], 10) is Some);
        }
    }
    lemma_find_char_absent(digits, ' ');
    assert(!starts_with(digits, seq!['0', 'x'])) by {
        if starts_with(digits, seq!['0', 'x']) {
            assert(digits.take(2)[1] == 'x');
            assert(digit(digits[1], 10) is Some);
        }
    }
    assert(!starts_with(digits, seq!['-', '0', 'x'])) by {
        if starts_with(digits, seq!['-', '0', 'x']) {
            assert(digits.take(3)[0] == '-');
        }
    }
    assert(digits[0] != '-' && digits[0] != '+');
}

proof fn lemma_after_equals(a: Seq<char>)
    requires
        a.len() > 0,
        !is_space(a[0]),
    ensures
        trim_start(seq![' ', '=', ' '] + a) == seq!['=', ' '] + a,
        starts_with(seq!['=', ' '] + a, seq!['=', ' ']),
        trim_start((seq!['=', ' '] + a).skip(1)) == a,
{
    let after = seq![' ', '=', ' '] + a;
    let t = seq!['=', ' '] + a;
    assert(is_space(' '));
    assert(!is_space('='));
    assert(after.drop_first() =~= t);
    assert(trim_start(t) == t);
    assert(t.take(2) =~= seq!['=', ' ']);
    assert(t.skip(1) =~= seq![' '] + a);
    assert((seq![' '] + a).drop_first() =~= a);
    assert(trim_start(a) == a);
}

proof fn lemma_regular_steps(s: Seq<char>, sp: int, p: int, c: int, a: Seq<char>)
    requires
        find(s, seq![' ']) == Some(sp),
        find(s.skip(sp + 1), seq!['(']) == Some(p),
        find(s.skip(sp + 1).skip(p + 1), seq![')']) == Some(c),
        trim_start(s.skip(sp + 1).skip(p + 1).skip(c + 1)) == seq!['=', ' '] + a,
        starts_with(seq!['=', ' '] + a, seq!['=', ' ']),
        trim_start((seq!['=', ' '] + a).skip(1)) == a,
        outcome(a) is Some,
    ensures
        regular(s) == Some(
            event(
                s.take(sp),
                trim(s.skip(sp + 1).take(p)),
                s.skip(sp + 1).skip(p + 1).take(c),
                outcome(a)->0,
                false,
            ),
        ),
{
}

} // verus!
