//! Command-line text handling: parsing one raw command line into arguments,
//! and the process-wide command-line cache filled from one batched query —
//! platforms where per-process command-line retrieval is expensive fill the
//! cache once per logical operation and look pids up in it.

use vstd::prelude::*;

use crate::text::push_char;
use vstd::pervasive::VecAdditionalExecFns;

verus! {

/// One parser step: a quote toggles quoting, a space outside quotes ends
/// the current argument, anything else extends it.
pub open spec fn parse_step(
    state: (Seq<Seq<char>>, Seq<char>, bool),
    c: char,
) -> (Seq<Seq<char>>, Seq<char>, bool) {
    let (args, cur, in_quotes) = state;
    if c == '"' {
        (args, cur, !in_quotes)
    } else if c == ' ' && !in_quotes {
        if cur.len() > 0 {
            (args.push(cur), Seq::empty(), in_quotes)
        } else {
            state
        }
    } else {
        (args, cur.push(c), in_quotes)
    }
}

/// The parser state after the first `n` characters.
pub open spec fn parse_fold(s: Seq<char>, n: int) -> (Seq<Seq<char>>, Seq<char>, bool)
    decreases n,
{
    if n <= 0 || n > s.len() {
        (Seq::empty(), Seq::empty(), false)
    } else {
        parse_step(parse_fold(s, n - 1), s[n - 1])
    }
}

/// The arguments of a raw command line: split on spaces outside double
/// quotes, with the quotes themselves removed, and a non-empty trailing
/// argument kept.
pub open spec fn spec_parse_cmdline(s: Seq<char>) -> Seq<Seq<char>> {
    let (args, cur, _) = parse_fold(s, s.len() as int);
    if cur.len() > 0 {
        args.push(cur)
    } else {
        args
    }
}

/// Splits one raw command line into arguments.
pub fn parse_cmdline_to_args(cmdline: &str) -> (r: Vec<String>)
    ensures
        r.deep_view() == spec_parse_cmdline(cmdline@),
{
    let n = cmdline.unicode_len();
    let mut args: Vec<String> = Vec::new();
    let mut current = String::new();
    let mut in_quotes = false;
    let mut i: usize = 0;
    while i < n
        invariant
            i <= n,
            n == cmdline@.len(),
            (args.deep_view(), current@, in_quotes) == parse_fold(cmdline@, i as int),
        decreases n - i,
    {
        let c = cmdline.get_char(i);
        let ghost args0 = args.deep_view();
        if c == '"' {
            in_quotes = !in_quotes;
        } else if c == ' ' && !in_quotes {
            if !current.as_str().is_empty() {
                args.push(current);
                current = String::new();
                proof {
                    assert(args.deep_view() =~= args0.push(
                        parse_fold(cmdline@, i as int).1,
                    ));
                }
            }
        } else {
            push_char(&mut current, c);
        }
        proof {
            assert(parse_fold(cmdline@, i + 1) == parse_step(
                parse_fold(cmdline@, i as int),
                cmdline@[i as int],
            ));
        }
        i = i + 1;
    }
    if !current.as_str().is_empty() {
        let ghost args0 = args.deep_view();
        args.push(current);
        proof {
            assert(args.deep_view() =~= args0.push(parse_fold(cmdline@, n as int).1));
        }
    }
    args
}

/// A decimal digit.
pub open spec fn is_digit(c: char) -> bool {
    48 <= c as int <= 57
}

/// A digit's value.
pub open spec fn digit_val(c: char) -> int {
    c as int - 48
}

/// Every character is a digit.
pub open spec fn all_digits(s: Seq<char>) -> bool {
    forall|i: int| 0 <= i < s.len() ==> is_digit(#[trigger] s[i])
}

/// The value of a decimal digit string.
pub open spec fn dec_val(s: Seq<char>) -> int
    decreases s.len(),
{
    if s.len() == 0 {
        0
    } else {
        dec_val(s.drop_last()) * 10 + digit_val(s.last())
    }
}

/// A digit string's value is non-negative.
proof fn lemma_dec_val_nonneg(s: Seq<char>)
    requires
        all_digits(s),
    ensures
        dec_val(s) >= 0,
    decreases s.len(),
{
    if s.len() > 0 {
        assert(all_digits(s.drop_last())) by {
            assert(forall|i: int|
                0 <= i < s.drop_last().len() ==> #[trigger] s.drop_last()[i] == s[i]);
        }
        lemma_dec_val_nonneg(s.drop_last());
    }
}

/// A digit string's value dominates every prefix's value.
proof fn lemma_dec_val_prefix(s: Seq<char>, i: int)
    requires
        all_digits(s),
        0 <= i <= s.len(),
    ensures
        dec_val(s.take(i)) <= dec_val(s),
    decreases s.len(),
{
    if i < s.len() {
        assert(all_digits(s.drop_last())) by {
            assert(forall|t: int|
                0 <= t < s.drop_last().len() ==> #[trigger] s.drop_last()[t] == s[t]);
        }
        assert(s.drop_last().take(i) =~= s.take(i));
        lemma_dec_val_prefix(s.drop_last(), i);
        lemma_dec_val_nonneg(s.drop_last());
        assert(dec_val(s) == dec_val(s.drop_last()) * 10 + digit_val(s.last()));
        assert(dec_val(s.drop_last()) * 10 >= dec_val(s.drop_last()));
    } else {
        assert(s.take(i) =~= s);
    }
}

/// Parses a non-empty decimal digit string that fits in 32 bits.
pub fn parse_u32(s: &str) -> (r: Option<u32>)
    ensures
        match r {
            Some(v) => s@.len() > 0 && all_digits(s@) && dec_val(s@) <= u32::MAX && v == dec_val(
                s@,
            ),
            None => !(s@.len() > 0 && all_digits(s@) && dec_val(s@) <= u32::MAX),
        },
{
    let n = s.unicode_len();
    if n == 0 {
        return None;
    }
    let mut acc: u64 = 0;
    let mut i: usize = 0;
    while i < n
        invariant
            i <= n,
            n == s@.len(),
            n > 0,
            all_digits(s@.take(i as int)),
            acc == dec_val(s@.take(i as int)),
            acc <= u32::MAX,
        decreases n - i,
    {
        let c = s.get_char(i);
        let cv = c as u32;
        proof {
            assert(s@.take(i + 1).drop_last() =~= s@.take(i as int));
            assert(s@.take(i + 1).last() == s@[i as int]);
        }
        if cv < 48 || cv > 57 {
            proof {
                assert(!is_digit(s@[i as int]));
            }
            return None;
        }
        let d = (cv - 48) as u64;
        let next = acc * 10 + d;
        if next > 0xffff_ffffu64 {
            proof {
                assert(all_digits(s@.take(i + 1)));
                assert(dec_val(s@.take(i + 1)) == next);
                if all_digits(s@) {
                    lemma_dec_val_prefix(s@, i + 1);
                }
            }
            return None;
        }
        acc = next;
        proof {
            assert(all_digits(s@.take(i + 1)));
        }
        i = i + 1;
    }
    proof {
        assert(s@.take(n as int) =~= s@);
    }
    Some(acc as u32)
}

/// Whitespace as the trimmer sees it.
pub open spec fn is_ws(c: char) -> bool {
    c == ' ' || c == '\t' || c == '\r' || c == '\n'
}

/// The string without leading whitespace.
pub open spec fn trim_start(s: Seq<char>) -> Seq<char>
    decreases s.len(),
{
    if s.len() > 0 && is_ws(s[0]) {
        trim_start(s.drop_first())
    } else {
        s
    }
}

/// The string without trailing whitespace.
pub open spec fn trim_end(s: Seq<char>) -> Seq<char>
    decreases s.len(),
{
    if s.len() > 0 && is_ws(s.last()) {
        trim_end(s.drop_last())
    } else {
        s
    }
}

/// The string without surrounding whitespace.
pub open spec fn spec_trim(s: Seq<char>) -> Seq<char> {
    trim_end(trim_start(s))
}

/// Strips surrounding whitespace.
pub fn trim_str(s: &str) -> (r: String)
    ensures
        r@ == spec_trim(s@),
{
    let n = s.unicode_len();
    proof {
        assert(s@.skip(0) =~= s@);
    }
    let mut a: usize = 0;
    while a < n && is_ws_exec(s.get_char(a))
        invariant
            a <= n,
            n == s@.len(),
            trim_start(s@) == trim_start(s@.skip(a as int)),
        decreases n - a,
    {
        proof {
            assert(s@.skip(a as int).drop_first() =~= s@.skip(a + 1));
        }
        a = a + 1;
    }
    proof {
        assert(trim_start(s@) == s@.skip(a as int));
    }
    let mut b: usize = n;
    while b > a && is_ws_exec(s.get_char(b - 1))
        invariant
            a <= b <= n,
            n == s@.len(),
            trim_start(s@) == s@.skip(a as int),
            trim_end(s@.skip(a as int)) == trim_end(s@.subrange(a as int, b as int)),
        decreases b,
    {
        proof {
            assert(s@.subrange(a as int, b as int).drop_last() =~= s@.subrange(a as int, b - 1));
            assert(s@.subrange(a as int, b as int).last() == s@[b - 1]);
        }
        b = b - 1;
    }
    proof {
        if b > a {
            assert(s@.subrange(a as int, b as int).last() == s@[b - 1]);
        }
        assert(trim_end(s@.subrange(a as int, b as int)) == s@.subrange(a as int, b as int));
        assert(s@.skip(a as int) =~= s@.subrange(a as int, n as int));
    }
    let piece = s.substring_char(a, b);
    piece.to_owned()
}

/// Whether the character is trimmer whitespace.
fn is_ws_exec(c: char) -> (r: bool)
    ensures
        r == is_ws(c),
{
    c == ' ' || c == '\t' || c == '\r' || c == '\n'
}

/// One line-splitter step: a newline ends the current line, with a
/// carriage return immediately before it stripped; anything else extends
/// the line.
pub open spec fn lines_step(
    state: (Seq<Seq<char>>, Seq<char>),
    c: char,
) -> (Seq<Seq<char>>, Seq<char>) {
    let (done, cur) = state;
    if c == '\n' {
        (done.push(strip_cr(cur)), Seq::empty())
    } else {
        (done, cur.push(c))
    }
}

/// The line without one trailing carriage return.
pub open spec fn strip_cr(s: Seq<char>) -> Seq<char> {
    if s.len() > 0 && s.last() == '\r' {
        s.drop_last()
    } else {
        s
    }
}

/// The splitter state after the first `n` characters.
pub open spec fn lines_fold(s: Seq<char>, n: int) -> (Seq<Seq<char>>, Seq<char>)
    decreases n,
{
    if n <= 0 || n > s.len() {
        (Seq::empty(), Seq::empty())
    } else {
        lines_step(lines_fold(s, n - 1), s[n - 1])
    }
}

/// The lines of a text: split at newlines, each line's trailing carriage
/// return stripped, and a non-empty final segment without a line ending
/// kept as it is.
pub open spec fn spec_lines(s: Seq<char>) -> Seq<Seq<char>> {
    let (done, cur) = lines_fold(s, s.len() as int);
    if cur.len() > 0 {
        done.push(cur)
    } else {
        done
    }
}

/// Splits a text into lines.
pub fn split_lines(text: &str) -> (r: Vec<String>)
    ensures
        r.deep_view() == spec_lines(text@),
{
    let n = text.unicode_len();
    let mut done: Vec<String> = Vec::new();
    let mut current = String::new();
    let mut i: usize = 0;
    while i < n
        invariant
            i <= n,
            n == text@.len(),
            (done.deep_view(), current@) == lines_fold(text@, i as int),
        decreases n - i,
    {
        let c = text.get_char(i);
        if c == '\n' {
            let ghost done0 = done.deep_view();
            let len = current.as_str().unicode_len();
            let line = if len > 0 && current.as_str().get_char(len - 1) == '\r' {
                let piece = current.as_str().substring_char(0, len - 1);
                proof {
                    assert(piece@ =~= strip_cr(current@));
                }
                piece.to_owned()
            } else {
                current
            };
            done.push(line);
            current = String::new();
            proof {
                assert(done.deep_view() =~= done0.push(strip_cr(lines_fold(text@, i as int).1)));
            }
        } else {
            push_char(&mut current, c);
        }
        proof {
            assert(lines_fold(text@, i + 1) == lines_step(
                lines_fold(text@, i as int),
                text@[i as int],
            ));
        }
        i = i + 1;
    }
    if !current.as_str().is_empty() {
        let ghost done0 = done.deep_view();
        done.push(current);
        proof {
            assert(done.deep_view() =~= done0.push(lines_fold(text@, n as int).1));
        }
    }
    done
}

/// The mathematical content of a cache entry.
pub ghost struct EntryView {
    pub pid: u32,
    pub cmdline: Seq<char>,
}

/// One cached command line.
pub struct CacheEntry {
    pub pid: u32,
    pub cmdline: String,
}

impl View for CacheEntry {
    type V = EntryView;

    open spec fn view(&self) -> EntryView {
        EntryView { pid: self.pid, cmdline: self.cmdline@ }
    }
}

impl DeepView for CacheEntry {
    type V = EntryView;

    open spec fn deep_view(&self) -> EntryView {
        self.view()
    }
}

/// The process-wide command-line cache, keyed by pid.
pub struct CmdlineCache {
    pub entries: Vec<CacheEntry>,
}

/// Some entry carries `pid`.
pub open spec fn has_entry(es: Seq<EntryView>, pid: u32) -> bool {
    exists|i: int| 0 <= i < es.len() && es[i].pid == pid
}

/// The entry carrying `pid`.
pub open spec fn entry_of(es: Seq<EntryView>, pid: u32) -> EntryView {
    es[choose|i: int| 0 <= i < es.len() && es[i].pid == pid]
}

/// The entries after storing one: the entry with the same pid is replaced,
/// or the new one is appended.
pub open spec fn spec_put_entry(es: Seq<EntryView>, e: EntryView) -> Seq<EntryView> {
    if has_entry(es, e.pid) {
        es.update(choose|i: int| 0 <= i < es.len() && es[i].pid == e.pid, e)
    } else {
        es.push(e)
    }
}

/// Cache pids are unique.
pub open spec fn cache_wf(es: Seq<EntryView>) -> bool {
    forall|i: int, j: int| 0 <= i < j < es.len() ==> es[i].pid != es[j].pid
}

impl CmdlineCache {
    /// An empty cache.
    pub fn new() -> (r: CmdlineCache)
        ensures
            r.entries.deep_view() =~= Seq::<EntryView>::empty(),
            cache_wf(r.entries.deep_view()),
    {
        CmdlineCache { entries: Vec::new() }
    }

    /// Stores one command line, replacing a previous entry for the pid.
    pub fn insert(&mut self, pid: u32, cmdline: String)
        requires
            cache_wf(old(self).entries.deep_view()),
        ensures
            cache_wf(final(self).entries.deep_view()),
            final(self).entries.deep_view() == spec_put_entry(
                old(self).entries.deep_view(),
                EntryView { pid, cmdline: cmdline@ },
            ),
    {
        let ghost es0 = self.entries.deep_view();
        let mut i: usize = 0;
        while i < self.entries.len()
            invariant
                i <= self.entries.len(),
                es0 == self.entries.deep_view(),
                es0 == old(self).entries.deep_view(),
                cache_wf(es0),
                es0.len() == self.entries.len(),
                forall|j: int| 0 <= j < self.entries.len() ==> es0[j] == self.entries[j]@,
                forall|j: int| 0 <= j < i ==> es0[j].pid != pid,
            decreases self.entries.len() - i,
        {
            if self.entries[i].pid == pid {
                proof {
                    assert(es0[i as int].pid == pid);
                    assert(has_entry(es0, pid));
                    let gi = choose|gi: int| 0 <= gi < es0.len() && es0[gi].pid == pid;
                    assert(es0[gi].pid == pid);
                    assert(gi == i as int);
                }
                self.entries.set(i, CacheEntry { pid, cmdline });
                proof {
                    assert(self.entries.deep_view() =~= spec_put_entry(
                        es0,
                        EntryView { pid, cmdline: cmdline@ },
                    ));
                }
                return ;
            }
            i = i + 1;
        }
        self.entries.push(CacheEntry { pid, cmdline });
        proof {
            let es1 = self.entries.deep_view();
            assert(es1 =~= es0.push(EntryView { pid, cmdline: cmdline@ }));
            assert forall|a: int, b: int|
                0 <= a < b < es1.len() implies es1[a].pid != es1[b].pid by {
                if b == es0.len() as int {
                    assert(es1[a] == es0[a]);
                }
            }
        }
    }
}

/// The cached command line of `pid`, if any.
pub fn get_process_command_line(cache: &CmdlineCache, pid: u32) -> (r: Option<String>)
    requires
        cache_wf(cache.entries.deep_view()),
    ensures
        match r {
            Some(c) => has_entry(cache.entries.deep_view(), pid) && c@ == entry_of(
                cache.entries.deep_view(),
                pid,
            ).cmdline,
            None => !has_entry(cache.entries.deep_view(), pid),
        },
{
    let ghost es = cache.entries.deep_view();
    let mut i: usize = 0;
    while i < cache.entries.len()
        invariant
            i <= cache.entries.len(),
            es == cache.entries.deep_view(),
            cache_wf(es),
            es.len() == cache.entries.len(),
            forall|j: int| 0 <= j < cache.entries.len() ==> es[j] == cache.entries[j]@,
            forall|j: int| 0 <= j < i ==> es[j].pid != pid,
        decreases cache.entries.len() - i,
    {
        if cache.entries[i].pid == pid {
            let c = cache.entries[i].cmdline.clone();
            proof {
                assert(es[i as int] == (EntryView { pid, cmdline: c@ }));
                assert(has_entry(es, pid));
                let gi = choose|gi: int| 0 <= gi < es.len() && es[gi].pid == pid;
                assert(es[gi].pid == pid);
                assert(gi == i as int);
            }
            return Some(c);
        }
        i = i + 1;
    }
    None
}

/// What one data row of the batched query yields: the text strictly between
/// the first and the last comma is the command line, the trimmed text after
/// the last comma is the decimal pid; a row without two commas, with an
/// unparsable pid or with an empty command line yields nothing.
pub open spec fn spec_row(line: Seq<char>) -> Option<(u32, Seq<char>)> {
    if exists|i: int, j: int| 0 <= i < j < line.len() && line[i] == ',' && line[j] == ',' {
        let f = choose|f: int|
            0 <= f < line.len() && line[f] == ',' && (forall|k: int|
                0 <= k < f ==> line[k] != ',');
        let l = choose|l: int|
            0 <= l < line.len() && line[l] == ',' && (forall|k: int|
                l < k < line.len() ==> line[k] != ',');
        let cmd = line.subrange(f + 1, l);
        let p = spec_trim(line.subrange(l + 1, line.len() as int));
        if p.len() > 0 && all_digits(p) && dec_val(p) <= u32::MAX && cmd.len() > 0 {
            Some(((dec_val(p)) as u32, cmd))
        } else {
            None
        }
    } else {
        None
    }
}

/// Parses one data row of the batched query.
pub fn parse_wmic_csv_row(line: &str) -> (r: Option<(u32, String)>)
    ensures
        match r {
            Some((pid, cmd)) => spec_row(line@) matches Some(sr) && sr.0 == pid && sr.1 == cmd@,
            None => spec_row(line@) is None,
        },
{
    let n = line.unicode_len();
    let mut first: usize = 0;
    let mut has_first = false;
    let mut i: usize = 0;
    while i < n
        invariant
            i <= n,
            n == line@.len(),
            !has_first ==> forall|k: int| 0 <= k < i ==> line@[k] != ',',
            has_first ==> i == n,
            has_first ==> first < n && line@[first as int] == ',' && (forall|k: int|
                0 <= k < first ==> line@[k] != ','),
        decreases n - i,
    {
        if line.get_char(i) == ',' {
            first = i;
            has_first = true;
            i = n;
        } else {
            i = i + 1;
        }
    }
    if !has_first {
        proof {
            assert(spec_row(line@) is None);
        }
        return None;
    }
    let mut last: usize = first;
    let mut j: usize = n;
    let mut has_last = false;
    while j > 0
        invariant
            j <= n,
            n == line@.len(),
            !has_last ==> forall|k: int| j <= k < n ==> line@[k] != ',',
            has_last ==> j == 0,
            has_last ==> last < n && line@[last as int] == ',' && (forall|k: int|
                last < k < n ==> line@[k] != ','),
        decreases j,
    {
        if line.get_char(j - 1) == ',' {
            last = j - 1;
            has_last = true;
            j = 0;
        } else {
            j = j - 1;
        }
    }
    proof {
        assert(has_last) by {
            if !has_last {
                assert(line@[first as int] != ',');
            }
        }
    }
    if last <= first {
        proof {
            assert(last == first);
            assert forall|a: int, b: int|
                !(0 <= a < b < line@.len() && line@[a] == ',' && line@[b] == ',') by {
                if 0 <= a < b < line@.len() && line@[a] == ',' && line@[b] == ',' {
                    assert(a >= first);
                    assert(b <= last);
                }
            }
            assert(spec_row(line@) is None);
        }
        return None;
    }
    proof {
        assert(0 <= first < last < line@.len() && line@[first as int] == ',' && line@[
            last as int] == ',');
        let f = choose|f: int|
            0 <= f < line@.len() && line@[f] == ',' && (forall|k: int|
                0 <= k < f ==> line@[k] != ',');
        let l = choose|l: int|
            0 <= l < line@.len() && line@[l] == ',' && (forall|k: int|
                l < k < line@.len() ==> line@[k] != ',');
        assert(f == first as int);
        assert(l == last as int);
    }
    let cmd = line.substring_char(first + 1, last);
    let tail = line.substring_char(last + 1, n);
    let trimmed = trim_str(tail);
    let pid = match parse_u32(trimmed.as_str()) {
        Some(p) => p,
        None => {
            return None;
        },
    };
    if cmd.is_empty() {
        return None;
    }
    Some((pid, cmd.to_owned()))
}


/// The cache contents after one batched query: every data row — the first
/// line is the header — contributes its pid and command line, later rows
/// replacing earlier ones with the same pid.
pub open spec fn spec_refresh(lines: Seq<Seq<char>>) -> Seq<EntryView>
    decreases lines.len(),
{
    if lines.len() <= 1 {
        Seq::empty()
    } else {
        let prev = spec_refresh(lines.drop_last());
        match spec_row(lines.last()) {
            Some(rc) => spec_put_entry(prev, EntryView { pid: rc.0, cmdline: rc.1 }),
            None => prev,
        }
    }
}

/// Fills a fresh cache from the raw output of the batched per-process
/// command-line query.
pub fn refresh_process_command_line_cache(wmic_output: &str) -> (r: CmdlineCache)
    ensures
        cache_wf(r.entries.deep_view()),
        r.entries.deep_view() == spec_refresh(spec_lines(wmic_output@)),
{
    let lines = split_lines(wmic_output);
    let ghost lv = lines.deep_view();
    let mut cache = CmdlineCache::new();
    if lines.len() == 0 {
        proof {
            assert(cache.entries.deep_view() =~= spec_refresh(lv));
        }
        return cache;
    }
    proof {
        assert(cache.entries.deep_view() =~= spec_refresh(lv.take(1)));
    }
    let mut i: usize = 1;
    while i < lines.len()
        invariant
            1 <= i <= lines.len(),
            lv == lines.deep_view(),
            lv.len() == lines.len(),
            forall|j: int| 0 <= j < lines.len() ==> lv[j] == lines[j]@,
            cache_wf(cache.entries.deep_view()),
            cache.entries.deep_view() == spec_refresh(lv.take(i as int)),
        decreases lines.len() - i,
    {
        proof {
            assert(lv.take(i + 1).drop_last() =~= lv.take(i as int));
            assert(lv.take(i + 1).last() == lv[i as int]);
        }
        match parse_wmic_csv_row(lines[i].as_str()) {
            Some((pid, cmdline)) => {
                cache.insert(pid, cmdline);
            },
            None => {},
        }
        i = i + 1;
    }
    proof {
        assert(lv.take(lines.len() as int) =~= lv);
    }
    cache
}

} // verus!
