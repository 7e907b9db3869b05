//! Reading the system figures that the widgets show out of the text of the
//! kernel's status files: memory totals, CPU times and battery state.

use vstd::prelude::*;
use crate::text::{str_chars, decimal, two_digits, digit_char};

verus! {

/// Whether `c` is white space in the Unicode sense (the `White_Space`
/// property, which is what `char::is_whitespace` tests).
pub open spec fn is_ws(c: char) -> bool {
    let v = c as u32;
    ||| 0x09 <= v <= 0x0D
    ||| v == 0x20
    ||| v == 0x85
    ||| v == 0xA0
    ||| v == 0x1680
    ||| 0x2000 <= v <= 0x200A
    ||| v == 0x2028
    ||| v == 0x2029
    ||| v == 0x202F
    ||| v == 0x205F
    ||| v == 0x3000
}

/// Whether `c` is white space (see `is_ws`).
pub fn is_whitespace(c: char) -> (ws: bool)
    ensures
        ws == is_ws(c),
{
    let v = c as u32;
    (0x09 <= v && v <= 0x0D) || v == 0x20 || v == 0x85 || v == 0xA0 || v == 0x1680 || (0x2000 <= v && v
        <= 0x200A) || v == 0x2028 || v == 0x2029 || v == 0x202F || v == 0x205F || v == 0x3000
}

/// The end of the run of non-white-space characters of `s` that starts at `i`.
pub open spec fn word_end(s: Seq<char>, i: int) -> int
    decreases s.len() - i,
{
    if 0 <= i < s.len() && !is_ws(s[i]) {
        word_end(s, i + 1)
    } else {
        i
    }
}

/// A word runs from `i` up to a white-space character or the end.
pub proof fn lemma_word_end(s: Seq<char>, i: int)
    requires
        0 <= i <= s.len(),
    ensures
        i <= word_end(s, i) <= s.len(),
        i < s.len() && !is_ws(s[i]) ==> word_end(s, i) > i,
        forall|k: int| i <= k < word_end(s, i) ==> !is_ws(#[trigger] s[k]),
        word_end(s, i) < s.len() ==> is_ws(s[word_end(s, i)]),
    decreases s.len() - i,
{
    if i < s.len() && !is_ws(s[i]) {
        lemma_word_end(s, i + 1);
    }
}

/// The words of `s` from index `i` on: its maximal runs of non-white-space
/// characters, in order (what `split_whitespace` yields).
pub open spec fn words_from(s: Seq<char>, i: int) -> Seq<Seq<char>>
    decreases s.len() - i,
{
    if i < 0 || i >= s.len() {
        seq![]
    } else if is_ws(s[i]) {
        words_from(s, i + 1)
    } else {
        let e = word_end(s, i);
        proof {
            lemma_word_end(s, i);
        }
        seq![s.subrange(i, e)] + words_from(s, e)
    }
}

/// The words of `s` (see `words_from`).
pub open spec fn words(s: Seq<char>) -> Seq<Seq<char>> {
    words_from(s, 0)
}

/// The words of `text`, as `words` states them.
pub fn split_words(text: &Vec<char>) -> (out: Vec<Vec<char>>)
    ensures
        out@.len() == words(text@).len(),
        forall|k: int| 0 <= k < out@.len() ==> #[trigger] out@[k]@ == words(text@)[k],
{
    let ghost s = text@;
    let n = text.len();
    let mut out: Vec<Vec<char>> = Vec::new();
    let ghost mut done: Seq<Seq<char>> = seq![];
    let mut i: usize = 0;
    while i < n
        invariant
            n == s.len(),
            s == text@,
            i <= n,
            words(s) == done + words_from(s, i as int),
            out@.len() == done.len(),
            forall|k: int| 0 <= k < out@.len() ==> #[trigger] out@[k]@ == done[k],
        decreases n - i,
    {
        if is_whitespace(text[i]) {
            i = i + 1;
        } else {
            let start = i;
            let mut word: Vec<char> = Vec::new();
            while i < n && !is_whitespace(text[i])
                invariant
                    n == s.len(),
                    s == text@,
                    start <= i <= n,
                    word_end(s, start as int) == word_end(s, i as int),
                    word@ == s.subrange(start as int, i as int),
                decreases n - i,
            {
                word.push(text[i]);
                i = i + 1;
                assert(word@ =~= s.subrange(start as int, i as int));
            }
            proof {
                lemma_word_end(s, start as int);
                assert(word_end(s, i as int) == i);
                assert(words_from(s, start as int) == seq![s.subrange(start as int, i as int)] + words_from(
                    s,
                    i as int,
                ));
                done = done.push(word@);
            }
            out.push(word);
            proof {
                assert(words(s) =~= done + words_from(s, i as int));
            }
        }
    }
    proof {
        assert(done =~= words(s));
    }
    out
}

/// The index of the first line feed of `s` at or after `i`, or the length
/// of `s` when there is none.
pub open spec fn line_end(s: Seq<char>, i: int) -> int
    decreases s.len() - i,
{
    if 0 <= i < s.len() && s[i] != '\n' {
        line_end(s, i + 1)
    } else {
        i
    }
}

/// A line runs from `i` up to a line feed or the end.
pub proof fn lemma_line_end(s: Seq<char>, i: int)
    requires
        0 <= i <= s.len(),
    ensures
        i <= line_end(s, i) <= s.len(),
        forall|k: int| i <= k < line_end(s, i) ==> #[trigger] s[k] != '\n',
        line_end(s, i) < s.len() ==> s[line_end(s, i)] == '\n',
    decreases s.len() - i,
{
    if i < s.len() && s[i] != '\n' {
        lemma_line_end(s, i + 1);
    }
}

/// The lines of `s` from index `i` on, as `str::lines` yields them: each
/// line ends at a line feed or at the end of the text, a line ended by a
/// line feed loses a carriage return right before it, and a line feed at the
/// very end starts no further line.
pub open spec fn lines_from(s: Seq<char>, i: int) -> Seq<Seq<char>>
    decreases s.len() + 1 - i,
{
    if i < 0 || i >= s.len() {
        seq![]
    } else {
        let e = line_end(s, i);
        proof {
            lemma_line_end(s, i);
        }
        let raw = s.subrange(i, e);
        let line = if e < s.len() && raw.len() > 0 && raw.last() == '\r' {
            raw.drop_last()
        } else {
            raw
        };
        seq![line] + lines_from(s, e + 1)
    }
}

/// The lines of `s` (see `lines_from`).
pub open spec fn lines(s: Seq<char>) -> Seq<Seq<char>> {
    lines_from(s, 0)
}

/// The line of `text` that starts at `i` (see `lines_from`), and the index
/// of the line feed that ends it (the length of `text` when none does).
fn next_line(text: &Vec<char>, i: usize) -> (r: (Vec<char>, usize))
    requires
        i < text@.len(),
    ensures
        lines_from(text@, i as int) == seq![r.0@] + lines_from(text@, r.1 + 1),
        i <= r.1 <= text@.len(),
{
    let ghost s = text@;
    let n = text.len();
    let mut j = i;
    let mut raw: Vec<char> = Vec::new();
    while j < n && text[j] != '\n'
        invariant
            n == s.len(),
            s == text@,
            i <= j <= n,
            line_end(s, i as int) == line_end(s, j as int),
            raw@ == s.subrange(i as int, j as int),
        decreases n - j,
    {
        raw.push(text[j]);
        j = j + 1;
        assert(raw@ =~= s.subrange(i as int, j as int));
    }
    proof {
        lemma_line_end(s, i as int);
        assert(line_end(s, j as int) == j);
    }
    if j < n && raw.len() > 0 && raw[raw.len() - 1] == '\r' {
        raw.pop();
    }
    proof {
        assert(lines_from(s, i as int) =~= seq![raw@] + lines_from(s, j + 1));
    }
    (raw, j)
}

/// The value of a non-empty run of decimal digits.
pub open spec fn digits_value(d: Seq<char>) -> nat
    decreases d.len(),
{
    if d.len() == 0 {
        0
    } else {
        digits_value(d.drop_last()) * 10 + ((d.last() as u32) - ('0' as u32)) as nat
    }
}

/// Whether every character of `d` is an ASCII decimal digit.
pub open spec fn all_digits(d: Seq<char>) -> bool {
    forall|k: int| 0 <= k < d.len() ==> '0' <= #[trigger] d[k] <= '9'
}

/// The digits that an unsigned number's text holds: all of it, or what
/// follows a leading `+` when there is more.
pub open spec fn number_digits(s: Seq<char>) -> Seq<char> {
    if s.len() > 1 && s[0] == '+' {
        s.drop_first()
    } else {
        s
    }
}

/// The unsigned integer that `s` denotes, if it is at most `max`, as the
/// standard library's `from_str` for unsigned integers reads it: an optional
/// `+` followed by at least one ASCII digit, nothing else.
pub open spec fn parse_unsigned(s: Seq<char>, max: nat) -> Option<nat> {
    let d = number_digits(s);
    if d.len() > 0 && all_digits(d) && digits_value(d) <= max {
        Some(digits_value(d))
    } else {
        None
    }
}

/// `s` read as a `u64` (see `parse_unsigned`).
pub fn parse_u64(s: &Vec<char>) -> (v: Option<u64>)
    ensures
        v matches Some(x) ==> parse_unsigned(s@, u64::MAX as nat) == Some(x as nat),
        v is None ==> parse_unsigned(s@, u64::MAX as nat) is None,
{
    parse_bounded(s, u64::MAX)
}

proof fn lemma_digits_value_prefix(d: Seq<char>, k: int)
    requires
        0 <= k <= d.len(),
        all_digits(d),
    ensures
        digits_value(d.take(k)) <= digits_value(d),
    decreases d.len() - k,
{
    if k < d.len() {
        lemma_digits_value_prefix(d, k + 1);
        assert(d.take(k + 1).drop_last() =~= d.take(k));
        assert('0' <= d[k] <= '9');
    } else {
        assert(d.take(k) =~= d);
    }
}

/// `s` read as an unsigned integer no larger than `max`.
fn parse_bounded(s: &Vec<char>, max: u64) -> (v: Option<u64>)
    ensures
        v matches Some(x) ==> parse_unsigned(s@, max as nat) == Some(x as nat),
        v is None ==> parse_unsigned(s@, max as nat) is None,
{
    let n = s.len();
    if n == 0 {
        return None;
    }
    let mut start: usize = 0;
    if n > 1 && s[0] == '+' {
        start = 1;
    }
    let ghost d = number_digits(s@);
    proof {
        assert(d =~= s@.subrange(start as int, n as int));
    }
    let mut acc: u64 = 0;
    let mut i = start;
    while i < n
        invariant
            n == s@.len(),
            n > 0,
            start <= i <= n,
            start <= 1,
            d == s@.subrange(start as int, n as int),
            d == number_digits(s@),
            d.len() > 0,
            all_digits(d.take(i - start)),
            acc == digits_value(d.take(i - start)),
            acc <= max,
        decreases n - i,
    {
        let c = s[i];
        if !('0' <= c && c <= '9') {
            proof {
                assert(d[i - start] == c);
                assert(!all_digits(d));
            }
            return None;
        }
        let digit = (c as u32 - '0' as u32) as u64;
        proof {
            assert(d.take(i - start + 1).drop_last() =~= d.take(i - start));
            assert(d.take(i - start + 1).last() == c);
        }
        if digit > max || acc > (max - digit) / 10 {
            proof {
                assert(acc * 10 + digit > max) by (nonlinear_arith)
                    requires digit > max || acc > (max - digit) / 10, digit <= max ==> max - digit >= 0;
                if all_digits(d) {
                    lemma_digits_value_prefix(d, i - start + 1);
                }
            }
            return None;
        }
        proof {
            assert(acc * 10 + digit <= max) by (nonlinear_arith)
                requires acc <= (max - digit) / 10, digit <= max;
        }
        acc = acc * 10 + digit;
        i = i + 1;
    }
    proof {
        assert(d.take(n - start) =~= d);
    }
    Some(acc)
}

/// The value that a meminfo line gives its field: its second word read as a
/// `u64`, zero when there is no such word or it is not a number.
pub open spec fn second_word_value(line: Seq<char>) -> u64 {
    let w = words(line);
    if w.len() > 1 {
        match parse_unsigned(w[1], u64::MAX as nat) {
            Some(v) => v as u64,
            None => 0,
        }
    } else {
        0
    }
}

/// Whether `s` begins with `prefix`.
pub open spec fn starts_with(s: Seq<char>, prefix: Seq<char>) -> bool {
    prefix.len() <= s.len() && s.take(prefix.len() as int) == prefix
}

/// The text `MemTotal:`.
pub open spec fn mem_total_key() -> Seq<char> {
    seq!['M', 'e', 'm', 'T', 'o', 't', 'a', 'l', ':']
}

/// The text `MemAvailable:`.
pub open spec fn mem_available_key() -> Seq<char> {
    seq!['M', 'e', 'm', 'A', 'v', 'a', 'i', 'l', 'a', 'b', 'l', 'e', ':']
}

/// The (total, available) pair after reading one more meminfo line: a
/// `MemTotal:` line sets the total, a `MemAvailable:` line the available
/// amount, any other line changes nothing.
pub open spec fn meminfo_step(acc: (u64, u64), line: Seq<char>) -> (u64, u64) {
    if starts_with(line, mem_total_key()) {
        (second_word_value(line), acc.1)
    } else if starts_with(line, mem_available_key()) {
        (acc.0, second_word_value(line))
    } else {
        acc
    }
}

/// The (total, available) pair after reading `ls` in order from `acc`.
pub open spec fn meminfo_fold(ls: Seq<Seq<char>>, acc: (u64, u64)) -> (u64, u64)
    decreases ls.len(),
{
    if ls.len() == 0 {
        acc
    } else {
        meminfo_fold(ls.drop_first(), meminfo_step(acc, ls[0]))
    }
}

/// The memory totals, in kB, that the text of `/proc/meminfo` gives: the
/// last `MemTotal:` and `MemAvailable:` lines decide, and a missing or
/// unreadable figure counts as zero.
pub open spec fn meminfo_totals(content: Seq<char>) -> (u64, u64) {
    meminfo_fold(lines(content), (0, 0))
}

fn chars_start_with(s: &Vec<char>, prefix: &str) -> (r: bool)
    ensures
        r == starts_with(s@, prefix@),
{
    let p = str_chars(prefix);
    if p.len() > s.len() {
        return false;
    }
    let mut k: usize = 0;
    while k < p.len()
        invariant
            p@ == prefix@,
            p.len() <= s.len(),
            k <= p.len(),
            s@.take(k as int) == p@.take(k as int),
        decreases p.len() - k,
    {
        if s[k] != p[k] {
            proof {
                assert(s@.take(p.len() as int)[k as int] != p@[k as int]);
            }
            return false;
        }
        k = k + 1;
        assert(s@.take(k as int) =~= p@.take(k as int));
    }
    assert(p@.take(p.len() as int) =~= p@);
    true
}

fn second_word(line: &Vec<char>) -> (v: u64)
    ensures
        v == second_word_value(line@),
{
    let words = split_words(line);
    if words.len() > 1 {
        match parse_u64(&words[1]) {
            Some(v) => v,
            None => 0,
        }
    } else {
        0
    }
}

/// Reads the memory totals out of the text of `/proc/meminfo` (see
/// `meminfo_totals`).
pub fn parse_meminfo(content: &str) -> (totals: (u64, u64))
    ensures
        totals == meminfo_totals(content@),
{
    let text = str_chars(content);
    let ghost s = text@;
    let n = text.len();
    let mut total: u64 = 0;
    let mut available: u64 = 0;
    let mut i: usize = 0;
    while i < n
        invariant
            s == text@,
            n == s.len(),
            i <= n,
            meminfo_totals(s) == meminfo_fold(lines_from(s, i as int), (total, available)),
        decreases n - i,
    {
        let (line, end) = next_line(&text, i);
        proof {
            let ls = lines_from(s, i as int);
            assert(ls[0] == line@);
            assert(ls.drop_first() =~= lines_from(s, end + 1));
        }
        if chars_start_with(&line, "MemTotal:") {
            total = second_word(&line);
        } else if chars_start_with(&line, "MemAvailable:") {
            available = second_word(&line);
        }
        proof {
            reveal_strlit("MemTotal:");
            reveal_strlit("MemAvailable:");
            assert("MemTotal:"@ =~= mem_total_key());
            assert("MemAvailable:"@ =~= mem_available_key());
        }
        if end < n {
            i = end + 1;
        } else {
            i = n;
        }
    }
    (total, available)
}

/// The text `cpu`.
pub open spec fn cpu_key() -> Seq<char> {
    seq!['c', 'p', 'u']
}

/// The words of `ws` that read as a `u64`, as those numbers, in order;
/// the other words are skipped.
pub open spec fn numbers_of(ws: Seq<Seq<char>>) -> Seq<u64>
    decreases ws.len(),
{
    if ws.len() == 0 {
        seq![]
    } else {
        let rest = numbers_of(ws.drop_first());
        match parse_unsigned(ws[0], u64::MAX as nat) {
            Some(v) => seq![v as u64] + rest,
            None => rest,
        }
    }
}

/// The counters of the aggregate CPU line of `/proc/stat`: the text's first
/// line must start with the word `cpu`; its later words that are numbers
/// are the counters. `None` when the text is empty or its first line is not
/// that line.
pub open spec fn cpu_fields(content: Seq<char>) -> Option<Seq<u64>> {
    let ls = lines(content);
    if ls.len() == 0 {
        None
    } else {
        let ws = words(ls[0]);
        if ws.len() == 0 || ws[0] != cpu_key() {
            None
        } else {
            Some(numbers_of(ws.drop_first()))
        }
    }
}

/// Counter `k` of `f`, zero where `f` has no such counter.
pub open spec fn counter(f: Seq<u64>, k: int) -> int {
    if 0 <= k < f.len() {
        f[k] as int
    } else {
        0
    }
}

/// Time spent idle: the idle and I/O-wait counters.
pub open spec fn idle_time(f: Seq<u64>) -> int {
    counter(f, 3) + counter(f, 4)
}

/// Time spent busy: user, nice, system, irq, softirq and steal.
pub open spec fn busy_time(f: Seq<u64>) -> int {
    counter(f, 0) + counter(f, 1) + counter(f, 2) + counter(f, 5) + counter(f, 6) + counter(f, 7)
}

/// The (total, idle) CPU times that counters `f` give: `None` with fewer
/// than four counters.
pub open spec fn cpu_times_of(f: Seq<u64>) -> Option<(u64, u64)> {
    if f.len() < 4 {
        None
    } else {
        Some(((idle_time(f) + busy_time(f)) as u64, idle_time(f) as u64))
    }
}

/// The counters whose sums fit in a `u64`.
pub open spec fn cpu_sums_fit(f: Seq<u64>) -> bool {
    f.len() >= 4 ==> idle_time(f) + busy_time(f) <= u64::MAX
}

fn is_cpu_word(w: &Vec<char>) -> (r: bool)
    ensures
        r == (w@ == cpu_key()),
{
    if w.len() != 3 {
        return false;
    }
    let r = w[0] == 'c' && w[1] == 'p' && w[2] == 'u';
    proof {
        if r {
            assert(w@ =~= cpu_key());
        }
    }
    r
}

/// Reads the counters of the aggregate CPU line out of the text of
/// `/proc/stat` (see `cpu_fields`).
pub fn parse_cpu_fields(content: &str) -> (f: Option<Vec<u64>>)
    ensures
        f matches Some(v) ==> cpu_fields(content@) == Some(v@),
        f is None ==> cpu_fields(content@) is None,
{
    let text = str_chars(content);
    if text.len() == 0 {
        return None;
    }
    let (line, _end) = next_line(&text, 0);
    let ws = split_words(&line);
    if ws.len() == 0 {
        return None;
    }
    if !is_cpu_word(&ws[0]) {
        return None;
    }
    let ghost wsv: Seq<Seq<char>> = Seq::new(ws@.len(), |k: int| ws@[k]@);
    proof {
        assert(wsv =~= words(line@));
    }
    let n = ws.len();
    let mut out: Vec<u64> = Vec::new();
    let mut k = n;
    while k > 1
        invariant
            1 <= k <= n,
            n == ws@.len(),
            wsv.len() == n,
            forall|j: int| 0 <= j < n ==> #[trigger] wsv[j] == ws@[j]@,
            out@ == numbers_of(wsv.subrange(k as int, n as int)),
        decreases k,
    {
        k = k - 1;
        let parsed = parse_u64(&ws[k]);
        proof {
            assert(wsv.subrange(k as int, n as int).drop_first() =~= wsv.subrange(k + 1, n as int));
            assert(wsv.subrange(k as int, n as int)[0] == ws@[k as int]@);
        }
        match parsed {
            Some(v) => {
                let mut one: Vec<u64> = Vec::new();
                one.push(v);
                one.append(&mut out);
                out = one;
            },
            None => {},
        }
        proof {
            assert(out@ =~= numbers_of(wsv.subrange(k as int, n as int)));
        }
    }
    proof {
        assert(wsv.subrange(1, n as int) =~= wsv.drop_first());
    }
    Some(out)
}

/// Whether the sums of counters `f` fit in a `u64` (see `cpu_sums_fit`).
pub fn cpu_times_fit(f: &Vec<u64>) -> (ok: bool)
    ensures
        ok == cpu_sums_fit(f@),
{
    if f.len() < 4 {
        return true;
    }
    let mut sum: u128 = 0;
    let mut k: usize = 0;
    while k < 8 && k < f.len()
        invariant
            k <= 8,
            f@.len() >= 4,
            sum == (if k > 0 { counter(f@, 0) } else { 0 }) + (if k > 1 { counter(f@, 1) } else { 0 })
                + (if k > 2 { counter(f@, 2) } else { 0 }) + (if k > 3 { counter(f@, 3) } else { 0 })
                + (if k > 4 { counter(f@, 4) } else { 0 }) + (if k > 5 { counter(f@, 5) } else { 0 })
                + (if k > 6 { counter(f@, 6) } else { 0 }) + (if k > 7 { counter(f@, 7) } else { 0 }),
            sum <= k * 0xffff_ffff_ffff_ffffu128,
        decreases 8 - k,
    {
        sum = sum + f[k] as u128;
        k = k + 1;
    }
    sum <= 0xffff_ffff_ffff_ffffu128
}

/// The (total, idle) CPU times that counters `f` give (see
/// `cpu_times_of`).
pub fn cpu_times(f: &Vec<u64>) -> (t: Option<(u64, u64)>)
    requires
        cpu_sums_fit(f@),
    ensures
        t == cpu_times_of(f@),
{
    if f.len() < 4 {
        return None;
    }
    let user = f[0];
    let nice = f[1];
    let system = f[2];
    let idle = f[3];
    let iowait = if f.len() > 4 { f[4] } else { 0 };
    let irq = if f.len() > 5 { f[5] } else { 0 };
    let softirq = if f.len() > 6 { f[6] } else { 0 };
    let steal = if f.len() > 7 { f[7] } else { 0 };
    let total_idle = idle + iowait;
    let total_non_idle = user + nice + system + irq + softirq + steal;
    let total = total_idle + total_non_idle;
    Some((total, total_idle))
}

/// The index of the first character of `s` at or after `i` that is not
/// white space, or the length of `s`.
pub open spec fn lead_end(s: Seq<char>, i: int) -> int
    decreases s.len() - i,
{
    if 0 <= i < s.len() && is_ws(s[i]) {
        lead_end(s, i + 1)
    } else {
        i
    }
}

/// The index just past the last character of `s` before `j` that is not
/// white space, or zero.
pub open spec fn trail_start(s: Seq<char>, j: int) -> int
    decreases j,
{
    if 0 < j <= s.len() && is_ws(s[j - 1]) {
        trail_start(s, j - 1)
    } else {
        j
    }
}

/// `s` without its leading and trailing white space (what `str::trim`
/// gives).
pub open spec fn trimmed(s: Seq<char>) -> Seq<char> {
    let a = lead_end(s, 0);
    let b = trail_start(s, s.len() as int);
    if a < b {
        s.subrange(a, b)
    } else {
        seq![]
    }
}

proof fn lemma_lead_end(s: Seq<char>, i: int)
    requires
        0 <= i <= s.len(),
    ensures
        i <= lead_end(s, i) <= s.len(),
        forall|k: int| i <= k < lead_end(s, i) ==> is_ws(#[trigger] s[k]),
        lead_end(s, i) < s.len() ==> !is_ws(s[lead_end(s, i)]),
    decreases s.len() - i,
{
    if i < s.len() && is_ws(s[i]) {
        lemma_lead_end(s, i + 1);
    }
}

proof fn lemma_trail_start(s: Seq<char>, j: int)
    requires
        0 <= j <= s.len(),
    ensures
        0 <= trail_start(s, j) <= j,
        forall|k: int| trail_start(s, j) <= k < j ==> is_ws(#[trigger] s[k]),
        trail_start(s, j) > 0 ==> !is_ws(s[trail_start(s, j) - 1]),
    decreases j,
{
    if 0 < j && is_ws(s[j - 1]) {
        lemma_trail_start(s, j - 1);
    }
}

/// `text` without its leading and trailing white space (see `trimmed`).
pub fn trim_chars(text: &Vec<char>) -> (t: Vec<char>)
    ensures
        t@ == trimmed(text@),
{
    let ghost s = text@;
    let n = text.len();
    let mut a: usize = 0;
    while a < n && is_whitespace(text[a])
        invariant
            s == text@,
            n == s.len(),
            a <= n,
            lead_end(s, 0) == lead_end(s, a as int),
        decreases n - a,
    {
        a = a + 1;
    }
    let mut b: usize = n;
    while b > 0 && is_whitespace(text[b - 1])
        invariant
            s == text@,
            n == s.len(),
            b <= n,
            trail_start(s, n as int) == trail_start(s, b as int),
        decreases b,
    {
        b = b - 1;
    }
    proof {
        lemma_lead_end(s, a as int);
        lemma_trail_start(s, b as int);
    }
    let mut t: Vec<char> = Vec::new();
    if a < b {
        let mut k = a;
        while k < b
            invariant
                s == text@,
                a <= k <= b <= n,
                n == s.len(),
                t@ == s.subrange(a as int, k as int),
            decreases b - k,
        {
            t.push(text[k]);
            k = k + 1;
            assert(t@ =~= s.subrange(a as int, k as int));
        }
    }
    t
}

/// `c` with an ASCII capital letter turned into its small letter.
pub open spec fn ascii_lower(c: char) -> char {
    if 'A' <= c <= 'Z' {
        ((c as u32) + 32) as char
    } else {
        c
    }
}

/// Whether `s` is `word` (a word of ASCII small letters) up to the case of
/// ASCII letters. For such a word this is exactly whether `s` turned to
/// lower case equals it: no other character has one of those letters as its
/// lower-case form but the ASCII capitals, and 'K' (Kelvin sign), whose
/// small letter `k` no word here holds.
pub open spec fn same_word(s: Seq<char>, word: Seq<char>) -> bool {
    s.len() == word.len() && forall|k: int| 0 <= k < s.len() ==> ascii_lower(#[trigger] s[k]) == word[k]
}

/// The text `charging`.
pub open spec fn charging_word() -> Seq<char> {
    seq!['c', 'h', 'a', 'r', 'g', 'i', 'n', 'g']
}

/// The text `full`.
pub open spec fn full_word() -> Seq<char> {
    seq!['f', 'u', 'l', 'l']
}

/// Whether a battery whose `status` file holds `status` draws power from
/// the mains: the trimmed status reads `charging` or `full`, in any case.
pub open spec fn status_charging(status: Seq<char>) -> bool {
    same_word(trimmed(status), charging_word()) || same_word(trimmed(status), full_word())
}

/// The charge, in percent, that the text of a battery's `capacity` file
/// gives: the trimmed text read as a `u8`, zero when it is not one.
pub open spec fn capacity_value(capacity: Seq<char>) -> u8 {
    match parse_unsigned(trimmed(capacity), u8::MAX as nat) {
        Some(v) => v as u8,
        None => 0,
    }
}

/// The battery reading that the texts of a battery's `capacity` and
/// `status` files give, `None` standing for a file that could not be read:
/// the charge (zero when unknown) and whether it is on mains power.
pub open spec fn battery_state(capacity: Option<Seq<char>>, status: Option<Seq<char>>) -> (u8, bool) {
    (
        match capacity {
            Some(c) => capacity_value(c),
            None => 0,
        },
        match status {
            Some(t) => status_charging(t),
            None => false,
        },
    )
}

fn is_word(s: &Vec<char>, word: &str) -> (r: bool)
    requires
        forall|k: int| 0 <= k < word@.len() ==> 'a' <= #[trigger] word@[k] <= 'z',
    ensures
        r == same_word(s@, word@),
{
    let w = str_chars(word);
    if s.len() != w.len() {
        return false;
    }
    let mut k: usize = 0;
    while k < s.len()
        invariant
            w@ == word@,
            s.len() == w.len(),
            k <= s.len(),
            forall|j: int| 0 <= j < k ==> ascii_lower(#[trigger] s@[j]) == w@[j],
        decreases s.len() - k,
    {
        let c = s[k];
        let lower = if 'A' <= c && c <= 'Z' {
            ((c as u32) + 32) as u8 as char
        } else {
            c
        };
        proof {
            if 'A' <= c <= 'Z' {
                assert(((c as u32) + 32) as u8 as char == ((c as u32) + 32) as char);
            }
        }
        if lower != w[k] {
            return false;
        }
        k = k + 1;
    }
    true
}

/// The battery reading that the texts of a battery's `capacity` and
/// `status` files give (see `battery_state`).
pub fn battery_reading(capacity: Option<&str>, status: Option<&str>) -> (r: (u8, bool))
    ensures
        r == battery_state(
            match capacity {
                Some(c) => Some(c@),
                None => None,
            },
            match status {
                Some(t) => Some(t@),
                None => None,
            },
        ),
{
    let percent = match capacity {
        Some(c) => {
            let t = trim_chars(&str_chars(c));
            match parse_bounded(&t, 255) {
                Some(v) => v as u8,
                None => 0,
            }
        },
        None => 0,
    };
    let charging = match status {
        Some(st) => {
            let t = trim_chars(&str_chars(st));
            proof {
                reveal_strlit("charging");
                reveal_strlit("full");
                assert("charging"@ =~= charging_word());
                assert("full"@ =~= full_word());
            }
            is_word(&t, "charging") || is_word(&t, "full")
        },
        None => false,
    };
    (percent, charging)
}

/// The character of decimal digit `d` is the ASCII digit `d`.
pub proof fn lemma_digit_char_code(d: int)
    requires
        0 <= d <= 9,
    ensures
        digit_char(d) as u32 == '0' as u32 + d,
        '0' <= digit_char(d) <= '9',
{
}

/// Writing a number in decimal and reading the text back gives the number:
/// the text is all digits and its value is `n`.
pub proof fn lemma_decimal_reads_back(n: nat)
    ensures
        decimal(n).len() > 0,
        all_digits(decimal(n)),
        digits_value(decimal(n)) == n,
    decreases n,
{
    if n < 10 {
        lemma_digit_char_code(n as int);
        let d = decimal(n);
        assert(d.drop_last() =~= Seq::<char>::empty());
        assert(digits_value(d.drop_last()) == 0);
        assert(d.last() == digit_char(n as int));
        assert(digits_value(d) == digits_value(d.drop_last()) * 10 + ((d.last() as u32) - ('0' as u32)) as nat);
    } else {
        lemma_decimal_reads_back(n / 10);
        lemma_digit_char_code((n % 10) as int);
        let d = decimal(n);
        assert(d.drop_last() =~= decimal(n / 10));
        assert(d.last() == digit_char((n % 10) as int));
        assert forall|k: int| 0 <= k < d.len() implies '0' <= #[trigger] d[k] <= '9' by {
            if k < d.len() - 1 {
                assert(d[k] == decimal(n / 10)[k]);
            }
        }
        assert(digits_value(d) == digits_value(d.drop_last()) * 10 + ((d.last() as u32) - ('0' as u32)) as nat);
        assert((n / 10) * 10 + n % 10 == n) by (nonlinear_arith);
    }
}

/// The two-digit text of a number below 100 reads back as that number.
pub proof fn lemma_two_digits_reads_back(n: nat)
    requires
        n < 100,
    ensures
        all_digits(two_digits(n)),
        digits_value(two_digits(n)) == n,
{
    lemma_digit_char_code((n / 10) as int);
    lemma_digit_char_code((n % 10) as int);
    let t = two_digits(n);
    assert(t.drop_last() =~= seq![digit_char((n / 10) as int)]);
    assert(t.drop_last().drop_last() =~= Seq::<char>::empty());
    let u = t.drop_last();
    assert(digits_value(u.drop_last()) == 0);
    assert(digits_value(u) == digits_value(u.drop_last()) * 10 + ((u.last() as u32) - ('0' as u32)) as nat);
    assert(digits_value(t) == digits_value(u) * 10 + ((t.last() as u32) - ('0' as u32)) as nat);
    assert((n / 10) * 10 + n % 10 == n) by (nonlinear_arith);
}

} // verus!
