//! Delta extraction.  One decoded event block is split into lines; each
//! line carrying the `data: ` field prefix holds either the stream
//! termination sentinel `[DONE]` or a JSON payload of the shape
//! `{"choices": [{"delta": {"content": "..."}}, ...]}`.  Content fragments
//! are collected in list order; any other line, the sentinel, and any
//! payload that does not match the shape contribute nothing — an unknown or
//! malformed event must never abort the session.

use vstd::prelude::*;
use vstd::string::StrSliceExecFns;
use crate::json::{skip_ws, parse_string, scan_string, ws_end};
use crate::text::string_of_chars;

verus! {

/// The character `c` stands at index `i`.
pub open spec fn at_pos(s: Seq<char>, i: int, c: char) -> bool {
    0 <= i < s.len() && s[i] == c
}

/// The literal `l` stands at index `i`.
pub open spec fn lit_at(s: Seq<char>, i: int, l: Seq<char>) -> bool {
    &&& 0 <= i
    &&& i + l.len() <= s.len()
    &&& forall|k: int| 0 <= k < l.len() ==> s[i + k] == l[k]
}

/// Parses `{}` or `{"content": "..."}` starting at `i`: the content
/// fragments named by the object and the index just past its closing brace.
pub open spec fn parse_delta_obj(s: Seq<char>, i: int) -> Option<(Seq<Seq<char>>, int)> {
    if !at_pos(s, i, '{') {
        None
    } else {
        let j = skip_ws(s, i + 1);
        if at_pos(s, j, '}') {
            Some((Seq::empty(), j + 1))
        } else if lit_at(s, j, "\"content\""@) {
            let k = skip_ws(s, j + "\"content\""@.len());
            if at_pos(s, k, ':') {
                let m = skip_ws(s, k + 1);
                match parse_string(s, m) {
                    Some(p) => {
                        let q = skip_ws(s, p.1);
                        if at_pos(s, q, '}') {
                            Some((seq![p.0], q + 1))
                        } else {
                            None
                        }
                    }
                    None => None,
                }
            } else {
                None
            }
        } else {
            None
        }
    }
}

/// Parses `{"delta": {...}}` starting at `i`.
pub open spec fn parse_choice(s: Seq<char>, i: int) -> Option<(Seq<Seq<char>>, int)> {
    if !at_pos(s, i, '{') {
        None
    } else {
        let j = skip_ws(s, i + 1);
        if lit_at(s, j, "\"delta\""@) {
            let k = skip_ws(s, j + "\"delta\""@.len());
            if at_pos(s, k, ':') {
                let m = skip_ws(s, k + 1);
                match parse_delta_obj(s, m) {
                    Some(p) => {
                        let q = skip_ws(s, p.1);
                        if at_pos(s, q, '}') {
                            Some((p.0, q + 1))
                        } else {
                            None
                        }
                    }
                    None => None,
                }
            } else {
                None
            }
        } else {
            None
        }
    }
}

/// Parses one or more comma-separated choices and the closing `]`,
/// starting at the first choice.
pub open spec fn parse_choice_seq(s: Seq<char>, i: int) -> Option<(Seq<Seq<char>>, int)>
    decreases s.len() - i,
{
    match parse_choice(s, i) {
        Some(p) => {
            let k = skip_ws(s, p.1);
            if at_pos(s, k, ',') {
                let m = skip_ws(s, k + 1);
                if i < m && m <= s.len() {
                    match parse_choice_seq(s, m) {
                        Some(q) => Some((p.0 + q.0, q.1)),
                        None => None,
                    }
                } else {
                    None
                }
            } else if at_pos(s, k, ']') {
                Some((p.0, k + 1))
            } else {
                None
            }
        }
        None => None,
    }
}

/// Parses a whole payload `{"choices": [...]}` and requires it to span the
/// text: the content fragments of all choices, in list order.
pub open spec fn parse_payload(s: Seq<char>) -> Option<Seq<Seq<char>>> {
    let i = skip_ws(s, 0);
    if !at_pos(s, i, '{') {
        None
    } else {
        let j = skip_ws(s, i + 1);
        if !lit_at(s, j, "\"choices\""@) {
            None
        } else {
            let k = skip_ws(s, j + "\"choices\""@.len());
            if !at_pos(s, k, ':') {
                None
            } else {
                let m = skip_ws(s, k + 1);
                if !at_pos(s, m, '[') {
                    None
                } else {
                    let n = skip_ws(s, m + 1);
                    if at_pos(s, n, ']') {
                        let p = skip_ws(s, n + 1);
                        if at_pos(s, p, '}') && skip_ws(s, p + 1) == s.len() {
                            Some(Seq::empty())
                        } else {
                            None
                        }
                    } else {
                        match parse_choice_seq(s, n) {
                            Some(q) => {
                                let p = skip_ws(s, q.1);
                                if at_pos(s, p, '}') && skip_ws(s, p + 1) == s.len() {
                                    Some(q.0)
                                } else {
                                    None
                                }
                            }
                            None => None,
                        }
                    }
                }
            }
        }
    }
}

/// The payload of a `data: ` line, if the line carries that prefix.
pub open spec fn data_payload(line: Seq<char>) -> Option<Seq<char>> {
    if lit_at(line, 0, "data: "@) {
        Some(line.skip("data: "@.len() as int))
    } else {
        None
    }
}

/// The deltas contributed by one line of an event.
pub open spec fn line_deltas(line: Seq<char>) -> Seq<Seq<char>> {
    match data_payload(line) {
        None => Seq::empty(),
        Some(p) => if p == "[DONE]"@ {
            Seq::empty()
        } else {
            match parse_payload(p) {
                Some(ds) => ds,
                None => Seq::empty(),
            }
        },
    }
}

/// The first line feed at index `i` or later.
pub open spec fn first_nl_from(s: Seq<char>, i: int) -> Option<int>
    decreases s.len() - i,
{
    if 0 <= i && i < s.len() {
        if s[i] == '\n' {
            Some(i)
        } else {
            first_nl_from(s, i + 1)
        }
    } else {
        None
    }
}

/// `first_nl_from` returns the least line-feed position at `i` or later.
pub proof fn lemma_first_nl_from(s: Seq<char>, i: int)
    requires
        0 <= i,
    ensures
        match first_nl_from(s, i) {
            Some(k) => i <= k < s.len() && s[k] == '\n' && (forall|j: int|
                i <= j < k ==> s[j] != '\n'),
            None => forall|j: int| i <= j < s.len() ==> s[j] != '\n',
        },
    decreases s.len() - i,
{
    if i < s.len() && s[i] != '\n' {
        lemma_first_nl_from(s, i + 1);
    }
}

/// The lines of the suffix of `s` starting at `i`, split at line feeds.
pub open spec fn split_lines_from(s: Seq<char>, i: int) -> Seq<Seq<char>>
    decreases s.len() - i,
{
    if 0 <= i <= s.len() {
        match first_nl_from(s, i) {
            Some(k) => if i <= k && k < s.len() {
                seq![s.subrange(i, k)] + split_lines_from(s, k + 1)
            } else {
                seq![s.subrange(i, s.len() as int)]
            },
            None => seq![s.subrange(i, s.len() as int)],
        }
    } else {
        Seq::empty()
    }
}

/// The lines of a whole event block.
pub open spec fn split_lines(s: Seq<char>) -> Seq<Seq<char>> {
    split_lines_from(s, 0)
}

/// The deltas of a sequence of lines, in order.
pub open spec fn lines_deltas(ls: Seq<Seq<char>>) -> Seq<Seq<char>>
    decreases ls.len(),
{
    if ls.len() == 0 {
        Seq::empty()
    } else {
        line_deltas(ls[0]) + lines_deltas(ls.drop_first())
    }
}

/// The deltas of one event block: each line's contribution, in line order.
pub open spec fn event_deltas(ev: Seq<char>) -> Seq<Seq<char>> {
    lines_deltas(split_lines(ev))
}

/// A line that does not carry the `data: ` prefix is ignored: it never
/// produces a delta.
pub proof fn lemma_non_data_line_ignored(line: Seq<char>)
    requires
        !lit_at(line, 0, "data: "@),
    ensures
        line_deltas(line) == Seq::<Seq<char>>::empty(),
{
}

/// The stream-termination sentinel line produces no delta.
pub proof fn lemma_done_line_no_delta(line: Seq<char>)
    requires
        line == "data: [DONE]"@,
    ensures
        line_deltas(line) == Seq::<Seq<char>>::empty(),
{
    reveal_strlit("data: [DONE]");
    reveal_strlit("data: ");
    reveal_strlit("[DONE]");
    if lit_at(line, 0, "data: "@) {
        assert(line.skip(6) =~= "[DONE]"@);
    }
}

/// A line whose payload fails to parse contributes nothing, and the other
/// lines of the event are unaffected: deleting the malformed line leaves
/// the extracted deltas unchanged.
pub proof fn lemma_malformed_line_skipped(ls: Seq<Seq<char>>, k: int)
    requires
        0 <= k < ls.len(),
        line_deltas(ls[k]) == Seq::<Seq<char>>::empty(),
    ensures
        lines_deltas(ls) == lines_deltas(ls.remove(k)),
    decreases ls.len(),
{
    if k == 0 {
        assert(ls.remove(0) =~= ls.drop_first());
        assert(Seq::<Seq<char>>::empty() + lines_deltas(ls.drop_first()) =~= lines_deltas(
            ls.drop_first(),
        ));
    } else {
        lemma_malformed_line_skipped(ls.drop_first(), k - 1);
        assert(ls.remove(k).drop_first() =~= ls.drop_first().remove(k - 1));
        assert(ls.remove(k)[0] == ls[0]);
    }
}

/// Does the character `c` stand at index `i`?
fn at_char(s: &Vec<char>, i: usize, c: char) -> (r: bool)
    ensures
        r == at_pos(s@, i as int, c),
{
    i < s.len() && s[i] == c
}

/// Does the literal stand at index `i`?
pub fn match_lit(s: &Vec<char>, i: usize, lit: &str) -> (r: bool)
    requires
        i <= s@.len(),
    ensures
        r == lit_at(s@, i as int, lit@),
{
    let n = s.len();
    let ll = lit.unicode_len();
    if n - i < ll {
        return false;
    }
    let mut k: usize = 0;
    while k < ll
        invariant
            k <= ll,
            i + ll <= n,
            n == s@.len(),
            ll == lit@.len(),
            forall|k2: int| 0 <= k2 < k ==> s@[i + k2] == lit@[k2],
        decreases ll - k,
    {
        if s[i + k] != lit.get_char(k) {
            return false;
        }
        k = k + 1;
    }
    true
}

/// Executable counterpart of `parse_delta_obj`; the optional vector holds
/// the content fragment if the object names one.
fn scan_delta_obj(s: &Vec<char>, i: usize) -> (r: Option<(Option<Vec<char>>, usize)>)
    requires
        i <= s@.len(),
    ensures
        match r {
            Some(p) => parse_delta_obj(s@, i as int) == Some(
                (opt_frag_view(p.0), p.1 as int),
            ) && i < p.1 <= s@.len(),
            None => parse_delta_obj(s@, i as int) is None,
        },
{
    let n = s.len();
    if !at_char(s, i, '{') {
        return None;
    }
    let j = ws_end(s, i + 1);
    if at_char(s, j, '}') {
        proof {
            assert(opt_frag_view(Option::<Vec<char>>::None) =~= Seq::<Seq<char>>::empty());
        }
        return Some((None, j + 1));
    }
    if !match_lit(s, j, "\"content\"") {
        return None;
    }
    proof {
        reveal_strlit("\"content\"");
    }
    let k = ws_end(s, j + 9);
    if !at_char(s, k, ':') {
        return None;
    }
    let m = ws_end(s, k + 1);
    match scan_string(s, m) {
        Some(p) => {
            let q = ws_end(s, p.1);
            if at_char(s, q, '}') {
                proof {
                    assert(opt_frag_view(Some(p.0)) =~= seq![p.0@]);
                }
                Some((Some(p.0), q + 1))
            } else {
                None
            }
        }
        None => None,
    }
}

/// The fragments named by an optional content value.
pub open spec fn opt_frag_view(o: Option<Vec<char>>) -> Seq<Seq<char>> {
    match o {
        Some(v) => seq![v@],
        None => Seq::empty(),
    }
}

/// Executable counterpart of `parse_choice`.
fn scan_choice(s: &Vec<char>, i: usize) -> (r: Option<(Option<Vec<char>>, usize)>)
    requires
        i <= s@.len(),
    ensures
        match r {
            Some(p) => parse_choice(s@, i as int) == Some((opt_frag_view(p.0), p.1 as int)) && i
                < p.1 <= s@.len(),
            None => parse_choice(s@, i as int) is None,
        },
{
    let n = s.len();
    if !at_char(s, i, '{') {
        return None;
    }
    let j = ws_end(s, i + 1);
    if !match_lit(s, j, "\"delta\"") {
        return None;
    }
    proof {
        reveal_strlit("\"delta\"");
    }
    let k = ws_end(s, j + 7);
    if !at_char(s, k, ':') {
        return None;
    }
    let m = ws_end(s, k + 1);
    match scan_delta_obj(s, m) {
        Some(p) => {
            let q = ws_end(s, p.1);
            if at_char(s, q, '}') {
                Some((p.0, q + 1))
            } else {
                None
            }
        }
        None => None,
    }
}

/// Prefixes already-collected fragments onto the rest of a choice-list
/// parse.
pub open spec fn prepend_frags(p: Seq<Seq<char>>, r: Option<(Seq<Seq<char>>, int)>) -> Option<
    (Seq<Seq<char>>, int),
> {
    match r {
        Some(q) => Some((p + q.0, q.1)),
        None => None,
    }
}

/// Executable counterpart of `parse_choice_seq`.
fn scan_choices(s: &Vec<char>, start: usize) -> (r: Option<(Vec<Vec<char>>, usize)>)
    requires
        start <= s@.len(),
    ensures
        match r {
            Some(p) => parse_choice_seq(s@, start as int) == Some(
                (p.0.deep_view(), p.1 as int),
            ) && start < p.1 <= s@.len(),
            None => parse_choice_seq(s@, start as int) is None,
        },
{
    let n = s.len();
    let mut acc: Vec<Vec<char>> = Vec::new();
    let mut i: usize = start;
    proof {
        assert(acc.deep_view() =~~= Seq::<Seq<char>>::empty());
    }
    loop
        invariant
            start <= i <= s@.len(),
            n == s@.len(),
            prepend_frags(acc.deep_view(), parse_choice_seq(s@, i as int)) == parse_choice_seq(
                s@,
                start as int,
            ),
        decreases s@.len() - i,
    {
        let ghost acc0: Seq<Seq<char>> = acc.deep_view();
        let choice = scan_choice(s, i);
        match choice {
            None => {
                return None;
            }
            Some((frag, j)) => {
                match frag {
                    Some(v) => {
                        acc.push(v);
                        proof {
                            assert(acc.deep_view() =~~= acc0 + opt_frag_view(Some(v)));
                        }
                    }
                    None => {
                        proof {
                            assert(acc.deep_view() =~~= acc0 + opt_frag_view(
                                Option::<Vec<char>>::None,
                            ));
                        }
                    }
                }
                let k = ws_end(s, j);
                if at_char(s, k, ',') {
                    let m = ws_end(s, k + 1);
                    proof {
                        assert(i < m && m <= s@.len());
                        let rest = parse_choice_seq(s@, m as int);
                        assert(parse_choice_seq(s@, i as int) == prepend_frags(
                            opt_frag_view(frag),
                            rest,
                        ));
                        assert(prepend_frags(acc0, prepend_frags(opt_frag_view(frag), rest))
                            == prepend_frags(acc0 + opt_frag_view(frag), rest)) by {
                            match rest {
                                Some(q) => {
                                    assert(acc0 + (opt_frag_view(frag) + q.0) =~~= (acc0
                                        + opt_frag_view(frag)) + q.0);
                                }
                                None => {}
                            }
                        }
                    }
                    i = m;
                } else if at_char(s, k, ']') {
                    proof {
                        assert(parse_choice_seq(s@, i as int) == Some(
                            (opt_frag_view(frag), k + 1),
                        ));
                        assert(acc0 + opt_frag_view(frag) =~~= acc.deep_view());
                    }
                    return Some((acc, k + 1));
                } else {
                    proof {
                        assert(parse_choice_seq(s@, i as int) is None);
                    }
                    return None;
                }
            }
        }
    }
}

/// Executable counterpart of `parse_payload`.
fn scan_payload(s: &Vec<char>) -> (r: Option<Vec<Vec<char>>>)
    ensures
        match r {
            Some(ds) => parse_payload(s@) == Some(ds.deep_view()),
            None => parse_payload(s@) is None,
        },
{
    let n = s.len();
    let i = ws_end(s, 0);
    if !at_char(s, i, '{') {
        return None;
    }
    let j = ws_end(s, i + 1);
    if !match_lit(s, j, "\"choices\"") {
        return None;
    }
    proof {
        reveal_strlit("\"choices\"");
    }
    let k = ws_end(s, j + 9);
    if !at_char(s, k, ':') {
        return None;
    }
    let m = ws_end(s, k + 1);
    if !at_char(s, m, '[') {
        return None;
    }
    let n = ws_end(s, m + 1);
    if at_char(s, n, ']') {
        let p = ws_end(s, n + 1);
        if at_char(s, p, '}') {
            let q = ws_end(s, p + 1);
            if q == s.len() {
                let ds: Vec<Vec<char>> = Vec::new();
                proof {
                    assert(ds.deep_view() =~~= Seq::<Seq<char>>::empty());
                }
                return Some(ds);
            }
        }
        return None;
    }
    match scan_choices(s, n) {
        Some((ds, e)) => {
            let p = ws_end(s, e);
            if at_char(s, p, '}') {
                let q = ws_end(s, p + 1);
                if q == s.len() {
                    return Some(ds);
                }
            }
            None
        }
        None => None,
    }
}

/// Finds the first line feed at `i` or later.
fn find_nl(s: &Vec<char>, i: usize) -> (r: Option<usize>)
    requires
        i <= s@.len(),
    ensures
        match r {
            Some(k) => first_nl_from(s@, i as int) == Some(k as int) && i <= k < s@.len(),
            None => first_nl_from(s@, i as int) is None,
        },
{
    let n = s.len();
    let mut j: usize = i;
    loop
        invariant
            i <= j <= n,
            n == s@.len(),
            first_nl_from(s@, i as int) == first_nl_from(s@, j as int),
        decreases n - j,
    {
        if j >= n {
            return None;
        }
        if s[j] == '\n' {
            return Some(j);
        }
        j = j + 1;
    }
}

/// Appends the deltas of one line to `out`, converted to strings.
fn push_line_deltas(line: &Vec<char>, out: &mut Vec<String>)
    ensures
        final(out).deep_view() == old(out).deep_view() + line_deltas(line@),
{
    let ghost out0: Seq<Seq<char>> = out.deep_view();
    proof {
        reveal_strlit("data: ");
    }
    if !match_lit(line, 0, "data: ") {
        proof {
            assert(out.deep_view() =~~= out0 + line_deltas(line@));
        }
        return ;
    }
    let n = line.len();
    let mut payload: Vec<char> = Vec::new();
    let mut i: usize = 6;
    while i < n
        invariant
            6 <= i <= n,
            n == line@.len(),
            payload@ == line@.subrange(6, i as int),
        decreases n - i,
    {
        payload.push(line[i]);
        i = i + 1;
        proof {
            assert(payload@ =~= line@.subrange(6, i as int));
        }
    }
    proof {
        assert(payload@ =~= line@.skip(6));
        assert(data_payload(line@) == Some(payload@));
    }
    proof {
        reveal_strlit("[DONE]");
    }
    if payload.len() == 6 && match_lit(&payload, 0, "[DONE]") {
        proof {
            assert(payload@ =~= "[DONE]"@);
            assert(out.deep_view() =~~= out0 + line_deltas(line@));
        }
        return ;
    }
    proof {
        reveal_strlit("[DONE]");
        if payload@ == "[DONE]"@ {
            assert(payload@.len() == 6);
            assert(lit_at(payload@, 0, "[DONE]"@));
        }
        assert(payload@ != "[DONE]"@);
    }
    let parsed = scan_payload(&payload);
    match parsed {
        None => {
            proof {
                reveal_strlit("data: ");
                reveal_strlit("[DONE]");
                assert(data_payload(line@) == Some(payload@));
                assert(payload@ != "[DONE]"@);
                assert(line_deltas(line@) =~~= Seq::<Seq<char>>::empty());
                assert(out.deep_view() =~~= out0 + line_deltas(line@));
            }
        }
        Some(ds) => {
            let m = ds.len();
            let mut k: usize = 0;
            while k < m
                invariant
                    k <= m,
                    m == ds@.len(),
                    out.deep_view() == out0 + ds.deep_view().take(k as int),
                decreases m - k,
            {
                let piece = string_of_chars(&ds[k]);
                proof {
                    assert(piece@ == ds.deep_view()[k as int]);
                }
                out.push(piece);
                proof {
                    assert(out.deep_view() =~~= (out0 + ds.deep_view().take(k as int)).push(
                        ds.deep_view()[k as int],
                    ));
                    assert(ds.deep_view().take(k as int + 1) =~~= ds.deep_view().take(
                        k as int,
                    ).push(ds.deep_view()[k as int]));
                    assert((out0 + ds.deep_view().take(k as int)).push(ds.deep_view()[k as int])
                        =~~= out0 + ds.deep_view().take(k as int + 1));
                }
                k = k + 1;
            }
            proof {
                reveal_strlit("data: ");
                reveal_strlit("[DONE]");
                assert(ds.deep_view().take(m as int) =~~= ds.deep_view());
                assert(data_payload(line@) == Some(payload@));
                assert(payload@ != "[DONE]"@);
                assert(line_deltas(line@) == ds.deep_view());
                assert(out.deep_view() =~~= out0 + line_deltas(line@));
            }
        }
    }
}

/// Extracts every delta of one event block, in line order then list order.
#[verifier::rlimit(50)]
pub fn extract_deltas(ev: &Vec<char>) -> (r: Vec<String>)
    ensures
        r.deep_view() == event_deltas(ev@),
{
    let mut out: Vec<String> = Vec::new();
    let n = ev.len();
    let mut i: usize = 0;
    proof {
        assert(out.deep_view() =~~= Seq::<Seq<char>>::empty());
    }
    loop
        invariant
            i <= n,
            n == ev@.len(),
            out.deep_view() + lines_deltas(split_lines_from(ev@, i as int)) =~~= event_deltas(ev@),
        decreases n - i,
    {
        let ghost out0: Seq<Seq<char>> = out.deep_view();
        let nl = find_nl(ev, i);
        let line_end: usize = match nl {
            Some(k) => k,
            None => n,
        };
        let mut line: Vec<char> = Vec::new();
        let mut j: usize = i;
        while j < line_end
            invariant
                i <= j <= line_end <= n,
                n == ev@.len(),
                line@ == ev@.subrange(i as int, j as int),
            decreases line_end - j,
        {
            line.push(ev[j]);
            j = j + 1;
            proof {
                assert(line@ =~= ev@.subrange(i as int, j as int));
            }
        }
        push_line_deltas(&line, &mut out);
        match nl {
            Some(k) => {
                proof {
                    lemma_first_nl_from(ev@, i as int);
                    let ls = split_lines_from(ev@, i as int);
                    assert(ls == seq![ev@.subrange(i as int, k as int)] + split_lines_from(
                        ev@,
                        k + 1,
                    ));
                    assert(ls.len() > 0);
                    assert(ls[0] == line@);
                    assert(ls.drop_first() =~~= split_lines_from(ev@, k + 1));
                    assert(lines_deltas(ls) =~~= line_deltas(line@) + lines_deltas(
                        split_lines_from(ev@, k + 1),
                    ));
                    assert((out0 + line_deltas(line@)) + lines_deltas(split_lines_from(ev@, k + 1))
                        =~~= out0 + (line_deltas(line@) + lines_deltas(
                        split_lines_from(ev@, k + 1),
                    )));
                }
                i = k + 1;
            }
            None => {
                proof {
                    let ls = split_lines_from(ev@, i as int);
                    assert(ls == seq![ev@.subrange(i as int, ev@.len() as int)]);
                    assert(ls.len() == 1);
                    assert(ls[0] == line@);
                    assert(ls.drop_first() =~~= Seq::<Seq<char>>::empty());
                    assert(lines_deltas(ls.drop_first()) =~~= Seq::<Seq<char>>::empty());
                    assert(lines_deltas(ls) =~~= line_deltas(ls[0]) + lines_deltas(
                        ls.drop_first(),
                    ));
                    assert(line_deltas(line@) + Seq::<Seq<char>>::empty() =~~= line_deltas(line@));
                    assert(lines_deltas(ls) =~~= line_deltas(line@));
                    assert(out.deep_view() =~~= out0 + line_deltas(line@));
                    assert(out.deep_view() =~~= event_deltas(ev@));
                }
                return out;
            }
        }
    }
}

} // verus!
