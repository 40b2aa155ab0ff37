//! A small JSON object codec over characters.
//!
//! Event records and the persisted user settings both live on disk as JSON
//! objects whose members are written by this crate.  The codec models an
//! object as a sequence of `(key, raw value)` pairs: keys are unescaped
//! strings, values are kept as raw JSON text and framed by a bracket- and
//! string-aware scanner, so a payload this crate does not interpret travels
//! through unchanged.
use vstd::prelude::*;

verus! {

// ---------------------------------------------------------------------------
// character classes
// ---------------------------------------------------------------------------

/// JSON insignificant whitespace.
pub open spec fn is_ws_char(c: char) -> bool {
    c == ' ' || c == '\n' || c == '\t' || c == '\r'
}

/// Control characters, which may not appear raw inside a JSON string.
pub open spec fn is_ctrl_char(c: char) -> bool {
    (c as u32) < 32
}

/// The escape code this codec writes for a character, if it needs one.
pub open spec fn esc_code(c: char) -> Option<char> {
    if c == '"' {
        Some('"')
    } else if c == '\\' {
        Some('\\')
    } else if c == '\n' {
        Some('n')
    } else if c == '\t' {
        Some('t')
    } else if c == '\r' {
        Some('r')
    } else {
        None
    }
}

/// The character an escape code stands for, if the code is understood.
/// Decoding also accepts `\/`, which encoding never produces.
pub open spec fn unesc_code(c: char) -> Option<char> {
    if c == '"' {
        Some('"')
    } else if c == '\\' {
        Some('\\')
    } else if c == '/' {
        Some('/')
    } else if c == 'n' {
        Some('\n')
    } else if c == 't' {
        Some('\t')
    } else if c == 'r' {
        Some('\r')
    } else {
        None
    }
}

/// A string field can be written losslessly: every control character in it
/// has an escape code.
pub open spec fn field_wf(s: Seq<char>) -> bool {
    forall|i: int|
        0 <= i < s.len() ==> !is_ctrl_char(s[i]) || s[i] == '\n' || s[i] == '\t' || s[i] == '\r'
}

// ---------------------------------------------------------------------------
// string escaping
// ---------------------------------------------------------------------------

pub open spec fn escape_char(c: char) -> Seq<char> {
    match esc_code(c) {
        Some(e) => seq!['\\', e],
        None => seq![c],
    }
}

pub open spec fn escape(s: Seq<char>) -> Seq<char>
    decreases s.len(),
{
    if s.len() == 0 {
        Seq::empty()
    } else {
        escape_char(s[0]) + escape(s.drop_first())
    }
}

/// A string member value as written: quotes around the escaped text.
pub open spec fn quote(s: Seq<char>) -> Seq<char> {
    seq!['"'] + escape(s) + seq!['"']
}

pub proof fn lemma_escape_snoc(s: Seq<char>, c: char)
    ensures
        escape(s.push(c)) == escape(s) + escape_char(c),
    decreases s.len(),
{
    assert(s.push(c)[0] == if s.len() == 0 { c } else { s[0] });
    if s.len() == 0 {
        assert(s.push(c).drop_first() =~= Seq::<char>::empty());
        assert(escape(s.push(c)) == escape_char(c) + escape(Seq::<char>::empty()));
        assert(escape(s.push(c)) =~= escape_char(c));
        assert(escape(s) + escape_char(c) =~= escape_char(c));
    } else {
        assert(s.push(c).drop_first() =~= s.drop_first().push(c));
        lemma_escape_snoc(s.drop_first(), c);
        assert(escape(s.push(c)) == escape_char(s[0]) + (escape(s.drop_first()) + escape_char(c)));
        assert(escape_char(s[0]) + (escape(s.drop_first()) + escape_char(c)) =~= (escape_char(s[0])
            + escape(s.drop_first())) + escape_char(c));
        assert(escape(s.push(c)) =~= escape(s) + escape_char(c));
    }
}

// ---------------------------------------------------------------------------
// the raw-value scanner
// ---------------------------------------------------------------------------

/// State of the scanner that frames one raw JSON value: bracket depth,
/// whether it stands inside a string, and whether the previous character
/// was a backslash inside that string.
pub struct ScanState {
    pub depth: nat,
    pub in_str: bool,
    pub esc: bool,
}

pub open spec fn scan_init() -> ScanState {
    ScanState { depth: 0, in_str: false, esc: false }
}

pub open spec fn scan_step(st: ScanState, c: char) -> ScanState {
    if st.in_str {
        if st.esc {
            ScanState { esc: false, ..st }
        } else if c == '\\' {
            ScanState { esc: true, ..st }
        } else if c == '"' {
            ScanState { in_str: false, ..st }
        } else {
            st
        }
    } else {
        if c == '"' {
            ScanState { in_str: true, ..st }
        } else if c == '{' || c == '[' {
            ScanState { depth: st.depth + 1, ..st }
        } else if (c == '}' || c == ']') && st.depth > 0 {
            ScanState { depth: (st.depth - 1) as nat, ..st }
        } else {
            st
        }
    }
}

pub open spec fn scan_fold(s: Seq<char>, st: ScanState) -> ScanState
    decreases s.len(),
{
    if s.len() == 0 {
        st
    } else {
        scan_fold(s.drop_first(), scan_step(st, s[0]))
    }
}

/// Does the scanner, in state `st`, stop just before `c`?  A raw value ends
/// at the first separator or closing bracket met at top level outside a
/// string.
pub open spec fn scan_stops(st: ScanState, c: char) -> bool {
    !st.in_str && st.depth == 0 && (c == ',' || c == '}' || c == ']')
}

pub proof fn lemma_scan_fold_snoc(s: Seq<char>, c: char, st: ScanState)
    ensures
        scan_fold(s.push(c), st) == scan_step(scan_fold(s, st), c),
    decreases s.len(),
{
    assert(s.push(c)[0] == if s.len() == 0 { c } else { s[0] });
    if s.len() == 0 {
        assert(s.push(c).drop_first() =~= Seq::<char>::empty());
        assert(scan_fold(s.push(c), st) == scan_fold(Seq::<char>::empty(), scan_step(st, c)));
        assert(scan_fold(Seq::<char>::empty(), scan_step(st, c)) == scan_step(st, c));
        assert(scan_fold(s, st) == st);
    } else {
        assert(s.push(c).drop_first() =~= s.drop_first().push(c));
        assert(scan_fold(s.push(c), st) == scan_fold(s.drop_first().push(c), scan_step(st, s[0])));
        lemma_scan_fold_snoc(s.drop_first(), c, scan_step(st, s[0]));
        assert(scan_fold(s, st) == scan_fold(s.drop_first(), scan_step(st, s[0])));
    }
}

/// A raw value is well formed when it is nonempty, starts and ends with a
/// non-blank character, never makes the scanner stop early, and leaves the
/// scanner back in its initial state.
pub open spec fn raw_value_wf(v: Seq<char>) -> bool {
    &&& v.len() > 0
    &&& !is_ws_char(v[0])
    &&& !is_ws_char(v[v.len() - 1])
    &&& (forall|i: int| 0 <= i < v.len() ==> !scan_stops(scan_fold(#[trigger] v.take(i), scan_init()), v[i]))
    &&& scan_fold(v, scan_init()) == scan_init()
}

/// Raw text that may stand on one line of the queue file: no raw control
/// characters, in particular no newline.
pub open spec fn line_safe(v: Seq<char>) -> bool {
    forall|i: int| 0 <= i < v.len() ==> !is_ctrl_char(v[i])
}

// ---------------------------------------------------------------------------
// the parser, at the specification level
// ---------------------------------------------------------------------------

/// One parsed object member: the unescaped key and the raw value text.
pub type RawMember = (Seq<char>, Seq<char>);

/// First index at or after `i` holding a non-blank character.
pub open spec fn sp_skip_ws(s: Seq<char>, i: int) -> int
    decreases s.len() - i,
{
    if 0 <= i < s.len() && is_ws_char(s[i]) {
        sp_skip_ws(s, i + 1)
    } else {
        i
    }
}

/// The body of a JSON string, entered just after the opening quote:
/// the unescaped text and the index just after the closing quote.
pub open spec fn sp_str_body(s: Seq<char>, i: int) -> Option<(Seq<char>, int)>
    decreases s.len() - i,
{
    if !(0 <= i < s.len()) {
        None
    } else if s[i] == '"' {
        Some((Seq::empty(), i + 1))
    } else if s[i] == '\\' {
        if i + 1 < s.len() && unesc_code(s[i + 1]) is Some {
            match sp_str_body(s, i + 2) {
                Some((t, j)) => Some((seq![unesc_code(s[i + 1]).unwrap()] + t, j)),
                None => None,
            }
        } else {
            None
        }
    } else if is_ctrl_char(s[i]) {
        None
    } else {
        match sp_str_body(s, i + 1) {
            Some((t, j)) => Some((seq![s[i]] + t, j)),
            None => None,
        }
    }
}

/// Scan one raw value from `i` in state `st`: the index of the separator or
/// closing bracket that ends it, or `None` if the text runs out first.
pub open spec fn sp_scan_raw(s: Seq<char>, i: int, st: ScanState) -> Option<int>
    decreases s.len() - i,
{
    if !(0 <= i < s.len()) {
        None
    } else if scan_stops(st, s[i]) {
        Some(i)
    } else {
        sp_scan_raw(s, i + 1, scan_step(st, s[i]))
    }
}

pub open spec fn trim_end_ws(s: Seq<char>) -> Seq<char>
    decreases s.len(),
{
    if s.len() > 0 && is_ws_char(s[s.len() - 1]) {
        trim_end_ws(s.drop_last())
    } else {
        s
    }
}

pub proof fn lemma_skip_ws_bounds(s: Seq<char>, i: int)
    requires
        0 <= i <= s.len(),
    ensures
        i <= sp_skip_ws(s, i) <= s.len(),
        forall|k: int| i <= k < sp_skip_ws(s, i) ==> is_ws_char(s[k]),
        sp_skip_ws(s, i) == s.len() || !is_ws_char(s[sp_skip_ws(s, i)]),
    decreases s.len() - i,
{
    if i < s.len() && is_ws_char(s[i]) {
        lemma_skip_ws_bounds(s, i + 1);
    }
}

pub proof fn lemma_str_body_bounds(s: Seq<char>, i: int)
    requires
        0 <= i,
    ensures
        sp_str_body(s, i) is Some ==> i + 1 <= sp_str_body(s, i).unwrap().1 <= s.len(),
    decreases s.len() - i,
{
    if 0 <= i < s.len() {
        if s[i] == '\\' {
            if i + 1 < s.len() && unesc_code(s[i + 1]) is Some {
                lemma_str_body_bounds(s, i + 2);
            }
        } else if s[i] != '"' && !is_ctrl_char(s[i]) {
            lemma_str_body_bounds(s, i + 1);
        }
    }
}

pub proof fn lemma_scan_raw_bounds(s: Seq<char>, i: int, st: ScanState)
    requires
        0 <= i,
    ensures
        sp_scan_raw(s, i, st) is Some ==> i <= sp_scan_raw(s, i, st).unwrap() < s.len(),
    decreases s.len() - i,
{
    if 0 <= i < s.len() && !scan_stops(st, s[i]) {
        lemma_scan_raw_bounds(s, i + 1, scan_step(st, s[i]));
    }
}

/// The members of an object, entered just after the opening brace or after a
/// separating comma: the parsed members and the index just after the closing
/// brace.  A value is trimmed of the blanks the scanner swept up behind it;
/// a member whose value is entirely blank is refused.
pub open spec fn sp_member_list(s: Seq<char>, i: int) -> Option<(Seq<RawMember>, int)>
    decreases s.len() - i,
{
    if !(0 <= i <= s.len()) {
        None
    } else {
        let j = sp_skip_ws(s, i);
        if !(j < s.len() && s[j] == '"') {
            None
        } else {
            match sp_str_body(s, j + 1) {
                None => None,
                Some((k, j2)) => {
                    let j3 = sp_skip_ws(s, j2);
                    if !(j3 < s.len() && s[j3] == ':') {
                        None
                    } else {
                        let j4 = sp_skip_ws(s, j3 + 1);
                        match sp_scan_raw(s, j4, scan_init()) {
                            None => None,
                            Some(j5) => {
                                let v = trim_end_ws(s.subrange(j4, j5));
                                if v.len() == 0 {
                                    None
                                } else if s[j5] == ',' {
                                    proof {
                                        lemma_skip_ws_bounds(s, i);
                                        lemma_str_body_bounds(s, j + 1);
                                        lemma_skip_ws_bounds(s, j2);
                                        lemma_skip_ws_bounds(s, j3 + 1);
                                        lemma_scan_raw_bounds(s, j4, scan_init());
                                    }
                                    match sp_member_list(s, j5 + 1) {
                                        None => None,
                                        Some((rest, j6)) => Some((seq![(k, v)] + rest, j6)),
                                    }
                                } else if s[j5] == '}' {
                                    Some((seq![(k, v)], j5 + 1))
                                } else {
                                    None
                                }
                            },
                        }
                    }
                },
            }
        }
    }
}

/// A whole object: optional blanks, the braced members, optional blanks,
/// nothing else.
pub open spec fn sp_parse_obj(s: Seq<char>) -> Option<Seq<RawMember>> {
    let j = sp_skip_ws(s, 0);
    if !(j < s.len() && s[j] == '{') {
        None
    } else {
        let j1 = sp_skip_ws(s, j + 1);
        if j1 < s.len() && s[j1] == '}' {
            if sp_skip_ws(s, j1 + 1) == s.len() {
                Some(Seq::empty())
            } else {
                None
            }
        } else {
            match sp_member_list(s, j + 1) {
                None => None,
                Some((p, j2)) => if sp_skip_ws(s, j2) == s.len() {
                    Some(p)
                } else {
                    None
                },
            }
        }
    }
}

// ---------------------------------------------------------------------------
// encoding
// ---------------------------------------------------------------------------

/// Every key can be escaped and every value is a well-framed raw text.
pub open spec fn pairs_wf(p: Seq<RawMember>) -> bool {
    forall|i: int| 0 <= i < p.len() ==> field_wf((#[trigger] p[i]).0) && raw_value_wf(p[i].1)
}

pub open spec fn enc_close(pretty: bool) -> Seq<char> {
    if pretty {
        seq!['\n', '}']
    } else {
        seq!['}']
    }
}

pub open spec fn enc_lead(pretty: bool) -> Seq<char> {
    if pretty {
        seq!['\n', ' ', ' ']
    } else {
        Seq::empty()
    }
}

pub open spec fn enc_colon(pretty: bool) -> Seq<char> {
    if pretty {
        seq![':', ' ']
    } else {
        seq![':']
    }
}

pub open spec fn enc_pair(m: RawMember, pretty: bool) -> Seq<char> {
    enc_lead(pretty) + quote(m.0) + enc_colon(pretty) + m.1
}

/// The members of a nonempty object, as written after the opening brace,
/// closing brace included.
pub open spec fn enc_members(p: Seq<RawMember>, pretty: bool) -> Seq<char>
    decreases p.len(),
{
    if p.len() == 0 {
        enc_close(pretty)
    } else if p.len() == 1 {
        enc_pair(p[0], pretty) + enc_close(pretty)
    } else {
        enc_pair(p[0], pretty) + seq![','] + enc_members(p.drop_first(), pretty)
    }
}

/// A whole object, compact or pretty-printed.
pub open spec fn enc_obj(p: Seq<RawMember>, pretty: bool) -> Seq<char> {
    if p.len() == 0 {
        seq!['{', '}']
    } else {
        seq!['{'] + enc_members(p, pretty)
    }
}

// ---------------------------------------------------------------------------
// member lookup and replacement
// ---------------------------------------------------------------------------

/// The raw value under the first member with this key.
pub open spec fn lookup(p: Seq<RawMember>, k: Seq<char>) -> Option<Seq<char>>
    decreases p.len(),
{
    if p.len() == 0 {
        None
    } else if p[0].0 == k {
        Some(p[0].1)
    } else {
        lookup(p.drop_first(), k)
    }
}

/// Replace the first member with this key, or append one.
pub open spec fn set_pair(p: Seq<RawMember>, k: Seq<char>, v: Seq<char>) -> Seq<RawMember>
    decreases p.len(),
{
    if p.len() == 0 {
        seq![(k, v)]
    } else if p[0].0 == k {
        seq![(k, v)] + p.drop_first()
    } else {
        seq![p[0]] + set_pair(p.drop_first(), k, v)
    }
}

pub proof fn lemma_lookup_set_same(p: Seq<RawMember>, k: Seq<char>, v: Seq<char>)
    ensures
        lookup(set_pair(p, k, v), k) == Some(v),
    decreases p.len(),
{
    if p.len() == 0 || p[0].0 == k {
    } else {
        lemma_lookup_set_same(p.drop_first(), k, v);
        assert((seq![p[0]] + set_pair(p.drop_first(), k, v)).drop_first() =~= set_pair(
            p.drop_first(),
            k,
            v,
        ));
    }
}

pub proof fn lemma_lookup_set_other(p: Seq<RawMember>, k: Seq<char>, v: Seq<char>, k2: Seq<char>)
    requires
        k2 != k,
    ensures
        lookup(set_pair(p, k, v), k2) == lookup(p, k2),
    decreases p.len(),
{
    if p.len() == 0 {
        assert(seq![(k, v)].drop_first() =~= Seq::<RawMember>::empty());
        assert(lookup(Seq::<RawMember>::empty(), k2) is None);
        assert(lookup(seq![(k, v)], k2) is None);
    } else if p[0].0 == k {
        let q = seq![(k, v)] + p.drop_first();
        assert(q[0] == (k, v));
        assert(q.drop_first() =~= p.drop_first());
        assert(lookup(q, k2) == lookup(p.drop_first(), k2));
    } else {
        lemma_lookup_set_other(p.drop_first(), k, v, k2);
        let q = seq![p[0]] + set_pair(p.drop_first(), k, v);
        assert(q[0] == p[0]);
        assert(q.drop_first() =~= set_pair(p.drop_first(), k, v));
        if p[0].0 == k2 {
            assert(lookup(q, k2) == Some(p[0].1));
            assert(lookup(p, k2) == Some(p[0].1));
        } else {
            assert(lookup(q, k2) == lookup(set_pair(p.drop_first(), k, v), k2));
            assert(lookup(p, k2) == lookup(p.drop_first(), k2));
        }
    }
}

pub proof fn lemma_set_pair_wf(p: Seq<RawMember>, k: Seq<char>, v: Seq<char>)
    requires
        pairs_wf(p),
        field_wf(k),
        raw_value_wf(v),
    ensures
        pairs_wf(set_pair(p, k, v)),
    decreases p.len(),
{
    if p.len() == 0 {
        let q = set_pair(p, k, v);
        assert(q == seq![(k, v)]);
        assert forall|i: int| 0 <= i < q.len() implies field_wf(#[trigger] q[i].0) && raw_value_wf(
            q[i].1,
        ) by {
            assert(q[i] == (k, v));
        }
    } else if p[0].0 == k {
        let q = set_pair(p, k, v);
        assert(q == seq![(k, v)] + p.drop_first());
        assert forall|i: int| 0 <= i < q.len() implies field_wf(#[trigger] q[i].0) && raw_value_wf(
            q[i].1,
        ) by {
            if i == 0 {
                assert(q[i] == (k, v));
            } else {
                assert(q.len() == p.len());
                assert(0 <= i < p.len());
                assert(q[i] == p.drop_first()[i - 1]);
                assert(p.drop_first()[i - 1] == p[i]);
                assert(field_wf(p[i].0) && raw_value_wf(p[i].1));
            }
        }
    } else {
        assert forall|i: int| 0 <= i < p.drop_first().len() implies field_wf(
            #[trigger] p.drop_first()[i].0,
        ) && raw_value_wf(p.drop_first()[i].1) by {
            assert(p.drop_first()[i] == p[i + 1]);
            assert(field_wf(p[i + 1].0) && raw_value_wf(p[i + 1].1));
        }
        lemma_set_pair_wf(p.drop_first(), k, v);
        let q = set_pair(p, k, v);
        assert(q == seq![p[0]] + set_pair(p.drop_first(), k, v));
        assert forall|i: int| 0 <= i < q.len() implies field_wf(#[trigger] q[i].0) && raw_value_wf(
            q[i].1,
        ) by {
            if i == 0 {
                assert(q[i] == p[0]);
                assert(field_wf(p[0].0) && raw_value_wf(p[0].1));
            } else {
                assert(q[i] == set_pair(p.drop_first(), k, v)[i - 1]);
                assert(field_wf(set_pair(p.drop_first(), k, v)[i - 1].0) && raw_value_wf(
                    set_pair(p.drop_first(), k, v)[i - 1].1,
                ));
            }
        }
    }
}

// ---------------------------------------------------------------------------
// round trip: parsing what was encoded gives the members back
// ---------------------------------------------------------------------------

pub proof fn lemma_subrange_index(s: Seq<char>, i: int, e: Seq<char>)
    requires
        0 <= i,
        i + e.len() <= s.len(),
        s.subrange(i, i + e.len()) == e,
    ensures
        forall|k: int| 0 <= k < e.len() ==> s[i + k] == e[k],
{
    assert forall|k: int| 0 <= k < e.len() implies s[i + k] == e[k] by {
        assert(s.subrange(i, i + e.len())[k] == s[i + k]);
    }
}

pub proof fn lemma_subrange_sub(s: Seq<char>, i: int, e: Seq<char>, a: int, b: int)
    requires
        0 <= i,
        i + e.len() <= s.len(),
        s.subrange(i, i + e.len()) == e,
        0 <= a <= b <= e.len(),
    ensures
        s.subrange(i + a, i + b) == e.subrange(a, b),
{
    lemma_subrange_index(s, i, e);
    assert(s.subrange(i + a, i + b) =~= e.subrange(a, b));
}

pub proof fn lemma_skip_ws_exact(s: Seq<char>, i: int, j: int)
    requires
        0 <= i <= j <= s.len(),
        forall|k: int| i <= k < j ==> is_ws_char(s[k]),
        j == s.len() || !is_ws_char(s[j]),
    ensures
        sp_skip_ws(s, i) == j,
    decreases j - i,
{
    if i < j {
        lemma_skip_ws_exact(s, i + 1, j);
    }
}

pub proof fn lemma_str_body_quoted(s: Seq<char>, i: int, f: Seq<char>)
    requires
        0 <= i,
        field_wf(f),
        i + escape(f).len() + 1 <= s.len(),
        s.subrange(i, i + escape(f).len() + 1) == escape(f) + seq!['"'],
    ensures
        sp_str_body(s, i) == Some((f, i + escape(f).len() + 1)),
    decreases f.len(),
{
    let e = escape(f) + seq!['"'];
    lemma_subrange_index(s, i, e);
    if f.len() == 0 {
        assert(escape(f) == Seq::<char>::empty());
        assert(s[i + 0] == e[0]);
        assert(s[i] == '"');
    } else {
        let c = f[0];
        let f2 = f.drop_first();
        assert(field_wf(f2)) by {
            assert(forall|k: int| 0 <= k < f2.len() ==> #[trigger] f2[k] == f[k + 1]);
        }
        assert(escape(f) == escape_char(c) + escape(f2));
        if esc_code(c) is Some {
            let ec = esc_code(c).unwrap();
            assert(escape_char(c) == seq!['\\', ec]);
            assert(escape(f).len() == 2 + escape(f2).len());
            assert(s[i + 0] == e[0] && s[i + 1] == e[1]);
            assert(e[0] == '\\' && e[1] == ec);
            assert(unesc_code(ec) == Some(c));
            lemma_subrange_sub(s, i, e, 2, e.len() as int);
            assert(e.subrange(2, e.len() as int) =~= escape(f2) + seq!['"']);
            lemma_str_body_quoted(s, i + 2, f2);
            assert(seq![unesc_code(s[i + 1]).unwrap()] + f2 =~= f);
        } else {
            assert(escape_char(c) == seq![c]);
            assert(s[i + 0] == e[0]);
            assert(e[0] == c);
            assert(c != '"' && c != '\\');
            assert(!is_ctrl_char(c));
            lemma_subrange_sub(s, i, e, 1, e.len() as int);
            assert(e.subrange(1, e.len() as int) =~= escape(f2) + seq!['"']);
            lemma_str_body_quoted(s, i + 1, f2);
            assert(seq![s[i]] + f2 =~= f);
        }
    }
}

pub proof fn lemma_scan_through_value(s: Seq<char>, i: int, v: Seq<char>, m: int)
    requires
        raw_value_wf(v),
        0 <= i,
        i + v.len() <= s.len(),
        s.subrange(i, i + v.len()) == v,
        0 <= m <= v.len(),
    ensures
        sp_scan_raw(s, i + m, scan_fold(v.take(m), scan_init())) == sp_scan_raw(
            s,
            i + v.len(),
            scan_init(),
        ),
    decreases v.len() - m,
{
    lemma_subrange_index(s, i, v);
    if m == v.len() {
        assert(v.take(m) =~= v);
    } else {
        let st = scan_fold(v.take(m), scan_init());
        assert(s[i + m] == v[m]);
        assert(!scan_stops(st, v[m]));
        assert(v.take(m + 1) =~= v.take(m).push(v[m]));
        lemma_scan_fold_snoc(v.take(m), v[m], scan_init());
        lemma_scan_through_value(s, i, v, m + 1);
    }
}

pub proof fn lemma_scan_ws_to_stop(s: Seq<char>, k: int, j: int)
    requires
        0 <= k <= j < s.len(),
        forall|t: int| k <= t < j ==> is_ws_char(s[t]),
        s[j] == ',' || s[j] == '}' || s[j] == ']',
    ensures
        sp_scan_raw(s, k, scan_init()) == Some(j),
    decreases j - k,
{
    if k == j {
        assert(scan_stops(scan_init(), s[j]));
    } else {
        assert(!scan_stops(scan_init(), s[k]));
        assert(scan_step(scan_init(), s[k]) == scan_init());
        lemma_scan_ws_to_stop(s, k + 1, j);
    }
}

pub proof fn lemma_trim_ws_suffix(u: Seq<char>, w: Seq<char>)
    requires
        forall|k: int| 0 <= k < w.len() ==> is_ws_char(w[k]),
    ensures
        trim_end_ws(u + w) == trim_end_ws(u),
    decreases w.len(),
{
    if w.len() == 0 {
        assert(u + w =~= u);
    } else {
        let uw = u + w;
        assert(uw[uw.len() - 1] == w[w.len() - 1]);
        assert(uw.drop_last() =~= u + w.drop_last());
        assert(forall|k: int|
            0 <= k < w.drop_last().len() ==> is_ws_char(#[trigger] w.drop_last()[k]));
        lemma_trim_ws_suffix(u, w.drop_last());
    }
}

pub proof fn lemma_scan_raw_value(s: Seq<char>, i: int, v: Seq<char>, j: int)
    requires
        raw_value_wf(v),
        0 <= i,
        i + v.len() <= j < s.len(),
        s.subrange(i, i + v.len()) == v,
        forall|k: int| i + v.len() <= k < j ==> is_ws_char(s[k]),
        s[j] == ',' || s[j] == '}' || s[j] == ']',
    ensures
        sp_scan_raw(s, i, scan_init()) == Some(j),
        trim_end_ws(s.subrange(i, j)) == v,
{
    lemma_scan_through_value(s, i, v, 0);
    assert(v.take(0) =~= Seq::<char>::empty());
    lemma_scan_ws_to_stop(s, i + v.len(), j);
    let w = s.subrange(i + v.len(), j);
    assert(s.subrange(i, j) =~= v + w);
    lemma_trim_ws_suffix(v, w);
    assert(trim_end_ws(v) == v);
}

pub proof fn lemma_enc_members_head(p: Seq<RawMember>, pretty: bool)
    requires
        p.len() >= 1,
    ensures
        enc_members(p, pretty).len() > enc_lead(pretty).len(),
        forall|t: int|
            0 <= t < enc_lead(pretty).len() ==> is_ws_char(#[trigger] enc_members(p, pretty)[t]),
        enc_members(p, pretty)[enc_lead(pretty).len() as int] == '"',
{
    let lead = enc_lead(pretty);
    let pt = enc_pair(p[0], pretty);
    let e = enc_members(p, pretty);
    assert(quote(p[0].0)[0] == '"');
    assert forall|t: int| 0 <= t <= lead.len() implies pt[t] == (lead + quote(p[0].0))[t] by {}
    assert(pt[lead.len() as int] == '"');
    assert forall|t: int| 0 <= t <= lead.len() implies e[t] == pt[t] by {}
    if pretty {
        assert(is_ws_char(lead[0]) && is_ws_char(lead[1]) && is_ws_char(lead[2]));
    }
}

#[verifier::rlimit(100)]
pub proof fn lemma_member_list_rt(s: Seq<char>, i: int, p: Seq<RawMember>, pretty: bool)
    requires
        p.len() >= 1,
        pairs_wf(p),
        0 <= i,
        i + enc_members(p, pretty).len() <= s.len(),
        s.subrange(i, i + enc_members(p, pretty).len()) == enc_members(p, pretty),
    ensures
        sp_member_list(s, i) == Some((p, i + enc_members(p, pretty).len())),
    decreases p.len(),
{
    let k0 = p[0].0;
    let v0 = p[0].1;
    assert(field_wf(k0) && raw_value_wf(v0));
    let lead = enc_lead(pretty);
    let colon = enc_colon(pretty);
    let close = enc_close(pretty);
    let pt = enc_pair(p[0], pretty);
    let el = escape(k0).len() as int;
    let a1 = lead.len() as int;
    let a2 = a1 + el + 2;
    let a3 = a2 + colon.len();
    let a4 = a3 + v0.len();
    let single = p.len() == 1;
    let e = enc_members(p, pretty);
    let rest = enc_members(p.drop_first(), pretty);
    assert(pt.len() == a4);
    assert(e == if single {
        pt + close
    } else {
        pt + seq![','] + rest
    });
    assert(e.len() == a4 + if single {
        close.len() as int
    } else {
        1 + rest.len() as int
    });
    lemma_subrange_index(s, i, e);
    // the leading blanks, then the key's opening quote
    lemma_enc_members_head(p, pretty);
    assert forall|t: int| i <= t < i + a1 implies is_ws_char(s[t]) by {
        assert(s[t] == e[t - i]);
    }
    assert(s[i + a1] == e[a1]);
    lemma_skip_ws_exact(s, i, i + a1);
    // the key itself
    lemma_subrange_sub(s, i, e, a1 + 1, a2);
    assert(e.subrange(a1 + 1, a2) =~= escape(k0) + seq!['"']);
    lemma_str_body_quoted(s, i + a1 + 1, k0);
    assert(sp_str_body(s, i + a1 + 1) == Some((k0, i + a2)));
    // the colon, with its blank when pretty-printed
    assert(pt[a2] == colon[0]);
    assert(e[a2] == pt[a2]);
    assert(s[i + a2] == ':');
    lemma_skip_ws_exact(s, i + a2, i + a2);
    assert forall|t: int| i + a2 + 1 <= t < i + a3 implies is_ws_char(s[t]) by {
        assert(s[t] == e[t - i]);
        assert(e[t - i] == pt[t - i]);
        assert(pt[t - i] == colon[t - i - a2]);
    }
    assert(pt[a3] == v0[0]);
    assert(e[a3] == pt[a3]);
    assert(!is_ws_char(s[i + a3]));
    lemma_skip_ws_exact(s, i + a2 + 1, i + a3);
    // the raw value, swept up to the separator or the closing brace
    lemma_subrange_sub(s, i, e, a3, a4);
    assert(e.subrange(a3, a4) =~= v0);
    let jstop = if single {
        i + a4 + if pretty {
            1int
        } else {
            0int
        }
    } else {
        i + a4
    };
    if single {
        assert(e[a4] == close[0]);
        if pretty {
            assert(e[a4 + 1] == close[1]);
            assert(is_ws_char(s[i + a4]));
        }
        assert(s[jstop] == '}');
    } else {
        assert(e[a4] == ',');
        assert(s[jstop] == ',');
    }
    assert forall|t: int| i + a4 <= t < jstop implies is_ws_char(s[t]) by {
        assert(s[t] == e[t - i]);
    }
    lemma_scan_raw_value(s, i + a3, v0, jstop);
    assert(trim_end_ws(s.subrange(i + a3, jstop)) == v0);
    assert(v0.len() > 0);
    if single {
        assert(seq![(k0, v0)] =~= p);
        assert(jstop + 1 == i + e.len());
        assert(sp_member_list(s, i) == Some((p, i + e.len())));
    } else {
        assert forall|t: int| 0 <= t < p.drop_first().len() implies field_wf(
            #[trigger] p.drop_first()[t].0,
        ) && raw_value_wf(p.drop_first()[t].1) by {
            assert(p.drop_first()[t] == p[t + 1]);
            assert(field_wf(p[t + 1].0) && raw_value_wf(p[t + 1].1));
        }
        lemma_subrange_sub(s, i, e, a4 + 1, e.len() as int);
        assert(e.subrange(a4 + 1, e.len() as int) =~= rest);
        lemma_member_list_rt(s, i + a4 + 1, p.drop_first(), pretty);
        assert(sp_member_list(s, i + a4 + 1) == Some((p.drop_first(), i + e.len())));
        assert(seq![(k0, v0)] + p.drop_first() =~= p);
        assert(sp_member_list(s, i) == Some((p, i + e.len())));
    }
}

pub proof fn lemma_parse_obj_rt(p: Seq<RawMember>, pretty: bool)
    requires
        pairs_wf(p),
    ensures
        sp_parse_obj(enc_obj(p, pretty)) == Some(p),
{
    let s = enc_obj(p, pretty);
    if p.len() == 0 {
        assert(s == seq!['{', '}']);
        lemma_skip_ws_exact(s, 0, 0);
        lemma_skip_ws_exact(s, 1, 1);
        lemma_skip_ws_exact(s, 2, 2);
    } else {
        let e = enc_members(p, pretty);
        let a1 = enc_lead(pretty).len() as int;
        assert(s == seq!['{'] + e);
        assert(s.len() == 1 + e.len());
        assert(s[0] == '{');
        lemma_skip_ws_exact(s, 0, 0);
        assert(s.subrange(1, 1 + e.len() as int) =~= e);
        lemma_subrange_index(s, 1, e);
        lemma_enc_members_head(p, pretty);
        assert forall|t: int| 1 <= t < 1 + a1 implies is_ws_char(s[t]) by {
            assert(s[t] == e[t - 1]);
        }
        assert(s[1 + a1] == e[a1]);
        assert(s[1 + a1] == '"');
        lemma_skip_ws_exact(s, 1, 1 + a1);
        lemma_member_list_rt(s, 1, p, pretty);
        lemma_skip_ws_exact(s, 1 + e.len() as int, s.len() as int);
        assert(sp_parse_obj(s) == Some(p));
    }
}

// ---------------------------------------------------------------------------
// what parsing yields is itself well formed
// ---------------------------------------------------------------------------

pub proof fn lemma_str_body_field_wf(s: Seq<char>, i: int)
    requires
        0 <= i,
    ensures
        sp_str_body(s, i) matches Some(p) ==> field_wf(p.0),
    decreases s.len() - i,
{
    if 0 <= i < s.len() {
        if s[i] == '"' {
        } else if s[i] == '\\' {
            if i + 1 < s.len() && unesc_code(s[i + 1]) is Some {
                lemma_str_body_field_wf(s, i + 2);
                if sp_str_body(s, i + 2) is Some {
                    let t = sp_str_body(s, i + 2).unwrap().0;
                    let u = unesc_code(s[i + 1]).unwrap();
                    assert forall|k: int| 0 <= k < (seq![u] + t).len() implies !is_ctrl_char(
                        #[trigger] (seq![u] + t)[k],
                    ) || (seq![u] + t)[k] == '\n' || (seq![u] + t)[k] == '\t' || (seq![u] + t)[k]
                        == '\r' by {
                        if k > 0 {
                            assert((seq![u] + t)[k] == t[k - 1]);
                        }
                    }
                }
            }
        } else if !is_ctrl_char(s[i]) {
            lemma_str_body_field_wf(s, i + 1);
            if sp_str_body(s, i + 1) is Some {
                let t = sp_str_body(s, i + 1).unwrap().0;
                let c = s[i];
                assert forall|k: int| 0 <= k < (seq![c] + t).len() implies !is_ctrl_char(
                    #[trigger] (seq![c] + t)[k],
                ) || (seq![c] + t)[k] == '\n' || (seq![c] + t)[k] == '\t' || (seq![c] + t)[k]
                    == '\r' by {
                    if k > 0 {
                        assert((seq![c] + t)[k] == t[k - 1]);
                    }
                }
            }
        }
    }
}

/// The scanner raises its escape flag only inside a string.
pub open spec fn scan_esc_inv(st: ScanState) -> bool {
    st.esc ==> st.in_str
}

pub proof fn lemma_scan_step_esc_inv(st: ScanState, c: char)
    requires
        scan_esc_inv(st),
    ensures
        scan_esc_inv(scan_step(st, c)),
{
}

pub proof fn lemma_fold_esc_inv(s: Seq<char>, st: ScanState)
    requires
        scan_esc_inv(st),
    ensures
        scan_esc_inv(scan_fold(s, st)),
    decreases s.len(),
{
    if s.len() > 0 {
        lemma_scan_step_esc_inv(st, s[0]);
        lemma_fold_esc_inv(s.drop_first(), scan_step(st, s[0]));
    }
}

/// Blanks never change the scanner's string flag or depth, and change
/// nothing at all when no escape is pending.
pub proof fn lemma_ws_fold(w: Seq<char>, st: ScanState)
    requires
        forall|k: int| 0 <= k < w.len() ==> is_ws_char(w[k]),
    ensures
        scan_fold(w, st).in_str == st.in_str,
        scan_fold(w, st).depth == st.depth,
        !st.esc ==> scan_fold(w, st) == st,
    decreases w.len(),
{
    if w.len() > 0 {
        assert(is_ws_char(w[0]));
        assert(forall|k: int|
            0 <= k < w.drop_first().len() ==> is_ws_char(#[trigger] w.drop_first()[k]));
        lemma_ws_fold(w.drop_first(), scan_step(st, w[0]));
    }
}

pub proof fn lemma_trim_end_prefix(u: Seq<char>)
    ensures
        trim_end_ws(u).len() <= u.len(),
        trim_end_ws(u) == u.take(trim_end_ws(u).len() as int),
        forall|k: int| trim_end_ws(u).len() <= k < u.len() ==> is_ws_char(u[k]),
        trim_end_ws(u).len() > 0 ==> !is_ws_char(trim_end_ws(u)[trim_end_ws(u).len() - 1]),
    decreases u.len(),
{
    if u.len() > 0 && is_ws_char(u[u.len() - 1]) {
        lemma_trim_end_prefix(u.drop_last());
        assert(trim_end_ws(u) == trim_end_ws(u.drop_last()));
        assert(u.drop_last().take(trim_end_ws(u).len() as int) =~= u.take(
            trim_end_ws(u).len() as int,
        ));
        assert forall|k: int| trim_end_ws(u).len() <= k < u.len() implies is_ws_char(u[k]) by {
            if k < u.len() - 1 {
                assert(u.drop_last()[k] == u[k]);
                assert(is_ws_char(u.drop_last()[k]));
            }
        }
    } else {
        assert(u.take(u.len() as int) =~= u);
    }
}

/// Along a successful raw scan the stop never comes early, and the state
/// at the stop is back where the scan began.
pub proof fn lemma_scan_raw_trace(s: Seq<char>, i: int, st: ScanState, j: int)
    requires
        0 <= i,
        scan_esc_inv(st),
        sp_scan_raw(s, i, st) == Some(j),
    ensures
        i <= j < s.len(),
        forall|m: int|
            0 <= m < j - i ==> !scan_stops(
                scan_fold(#[trigger] s.subrange(i, j).take(m), st),
                s[i + m],
            ),
        scan_fold(s.subrange(i, j), st) == (ScanState {
            depth: 0,
            in_str: false,
            esc: false,
        }),
    decreases s.len() - i,
{
    lemma_scan_raw_bounds(s, i, st);
    if scan_stops(st, s[i]) {
        assert(j == i);
        assert(s.subrange(i, j) =~= Seq::<char>::empty());
        assert(!st.in_str && st.depth == 0);
        assert(!st.esc);
        assert(st == (ScanState { depth: 0, in_str: false, esc: false }));
    } else {
        let st2 = scan_step(st, s[i]);
        lemma_scan_step_esc_inv(st, s[i]);
        lemma_scan_raw_trace(s, i + 1, st2, j);
        let u = s.subrange(i, j);
        let u2 = s.subrange(i + 1, j);
        assert(u =~= seq![s[i]] + u2);
        assert(u.drop_first() =~= u2);
        assert(scan_fold(u, st) == scan_fold(u2, st2));
        assert forall|m: int| 0 <= m < j - i implies !scan_stops(
            scan_fold(#[trigger] u.take(m), st),
            s[i + m],
        ) by {
            if m == 0 {
                assert(u.take(0) =~= Seq::<char>::empty());
            } else {
                assert(u.take(m) =~= seq![s[i]] + u2.take(m - 1));
                assert(u.take(m).drop_first() =~= u2.take(m - 1));
                assert(scan_fold(u.take(m), st) == scan_fold(u2.take(m - 1), st2));
                assert(!scan_stops(scan_fold(u2.take(m - 1), st2), s[i + 1 + (m - 1)]));
            }
        }
    }
}

/// A successful scan's captured text, once trimmed, is a well-formed raw
/// value.
pub proof fn lemma_captured_raw_wf(s: Seq<char>, i: int, j: int)
    requires
        0 <= i < s.len(),
        !is_ws_char(s[i]),
        sp_scan_raw(s, i, scan_init()) == Some(j),
        i < j,
    ensures
        raw_value_wf(trim_end_ws(s.subrange(i, j))),
{
    let u = s.subrange(i, j);
    lemma_scan_raw_trace(s, i, scan_init(), j);
    lemma_trim_end_prefix(u);
    let v = trim_end_ws(u);
    let m0 = v.len() as int;
    assert(u[0] == s[i]);
    assert(m0 > 0) by {
        if m0 == 0 {
            assert(is_ws_char(u[0]));
        }
    }
    assert(v == u.take(m0));
    assert(v[0] == u[0]);
    assert(!is_ws_char(v[v.len() - 1]));
    assert forall|k: int| 0 <= k < v.len() implies !scan_stops(
        scan_fold(#[trigger] v.take(k), scan_init()),
        v[k],
    ) by {
        assert(v.take(k) =~= u.take(k));
        assert(v[k] == u[k]);
        assert(u[k] == s[i + k]);
        assert(!scan_stops(scan_fold(u.take(k), scan_init()), s[i + k]));
    }
    let stv = scan_fold(v, scan_init());
    let w = u.skip(m0);
    assert(u =~= v + w);
    assert(forall|k: int| 0 <= k < w.len() ==> is_ws_char(#[trigger] w[k])) by {
        assert(forall|k: int| 0 <= k < w.len() ==> w[k] == u[m0 + k]);
    }
    lemma_scan_fold_concat(v, w, scan_init());
    lemma_fold_esc_inv(v, scan_init());
    lemma_ws_fold(w, stv);
    assert(scan_fold(u, scan_init()).in_str == stv.in_str);
    assert(!stv.in_str);
    assert(!stv.esc);
    assert(scan_fold(w, stv) == stv);
    assert(stv == scan_init());
}

/// Every member list a successful parse yields is well formed: keys can
/// be re-escaped and values re-framed, so a read-merge-write never breaks
/// the file.
pub proof fn lemma_member_list_wf(s: Seq<char>, i: int)
    requires
        0 <= i <= s.len(),
    ensures
        sp_member_list(s, i) matches Some(p) ==> pairs_wf(p.0),
    decreases s.len() - i,
{
    let j = sp_skip_ws(s, i);
    lemma_skip_ws_bounds(s, i);
    if j < s.len() && s[j] == '"' {
        lemma_str_body_bounds(s, j + 1);
        lemma_str_body_field_wf(s, j + 1);
        match sp_str_body(s, j + 1) {
            None => {},
            Some((k, j2)) => {
                let j3 = sp_skip_ws(s, j2);
                lemma_skip_ws_bounds(s, j2);
                if j3 < s.len() && s[j3] == ':' {
                    let j4 = sp_skip_ws(s, j3 + 1);
                    lemma_skip_ws_bounds(s, j3 + 1);
                    lemma_scan_raw_bounds(s, j4, scan_init());
                    match sp_scan_raw(s, j4, scan_init()) {
                        None => {},
                        Some(j5) => {
                            let v = trim_end_ws(s.subrange(j4, j5));
                            if v.len() == 0 {
                            } else {
                                assert(j4 < j5) by {
                                    lemma_trim_end_prefix(s.subrange(j4, j5));
                                }
                                assert(!is_ws_char(s[j4]));
                                lemma_captured_raw_wf(s, j4, j5);
                                if s[j5] == ',' {
                                    lemma_member_list_wf(s, j5 + 1);
                                    if sp_member_list(s, j5 + 1) is Some {
                                        {
                                            let rest = sp_member_list(s, j5 + 1).unwrap().0;
                                            let p = seq![(k, v)] + rest;
                                            assert forall|t: int|
                                                0 <= t < p.len() implies field_wf(
                                                (#[trigger] p[t]).0,
                                            ) && raw_value_wf(p[t].1) by {
                                                if t == 0 {
                                                    assert(p[t] == (k, v));
                                                } else {
                                                    assert(p[t] == rest[t - 1]);
                                                    assert(field_wf(rest[t - 1].0)
                                                        && raw_value_wf(rest[t - 1].1));
                                                }
                                            }
                                        }
                                    }
                                } else if s[j5] == '}' {
                                    let p = seq![(k, v)];
                                    assert forall|t: int| 0 <= t < p.len() implies field_wf(
                                        (#[trigger] p[t]).0,
                                    ) && raw_value_wf(p[t].1) by {
                                        assert(p[t] == (k, v));
                                    }
                                }
                            }
                        },
                    }
                }
            },
        }
    }
}

/// Whatever a whole parse yields is well formed.
pub proof fn lemma_parse_obj_wf(s: Seq<char>)
    ensures
        sp_parse_obj(s) matches Some(p) ==> pairs_wf(p),
{
    let j = sp_skip_ws(s, 0);
    lemma_skip_ws_bounds(s, 0);
    if j < s.len() && s[j] == '{' {
        lemma_member_list_wf(s, j + 1);
    }
}

// ---------------------------------------------------------------------------
// executable codec
// ---------------------------------------------------------------------------

/// One object member as carried at run time.
pub struct Member {
    pub key: Vec<char>,
    pub value: Vec<char>,
}

pub open spec fn member_view(m: Member) -> RawMember {
    (m.key@, m.value@)
}

pub open spec fn members_view(ms: Seq<Member>) -> Seq<RawMember> {
    ms.map_values(|m: Member| member_view(m))
}

/// The characters of a string, in order.
pub fn chars_of(s: &str) -> (v: Vec<char>)
    ensures
        v@ == s@,
{
    let n = s.unicode_len();
    let mut v: Vec<char> = Vec::new();
    let mut i: usize = 0;
    while i < n
        invariant
            0 <= i <= n,
            n == s@.len(),
            v@ == s@.take(i as int),
        decreases n - i,
    {
        v.push(s.get_char(i));
        assert(s@.take(i + 1) =~= s@.take(i as int).push(s@[i as int]));
        i += 1;
    }
    assert(s@.take(n as int) =~= s@);
    v
}

/// Relies on `String`'s `FromIterator` over `char`: a string holding exactly
/// these characters, in order.
#[verifier::external_body]
pub fn string_from_chars(v: &Vec<char>) -> (s: String)
    ensures
        s@ == v@,
{
    v.iter().collect()
}

pub fn chars_eq(a: &Vec<char>, b: &Vec<char>) -> (r: bool)
    ensures
        r == (a@ == b@),
{
    if a.len() != b.len() {
        assert(a@ != b@);
        return false;
    }
    let n = a.len();
    let mut i: usize = 0;
    while i < n
        invariant
            0 <= i <= n,
            n == a@.len() == b@.len(),
            forall|k: int| 0 <= k < i ==> a@[k] == b@[k],
        decreases n - i,
    {
        if a[i] != b[i] {
            return false;
        }
        i += 1;
    }
    assert(a@ =~= b@);
    true
}

pub fn copy_range(s: &Vec<char>, a: usize, b: usize) -> (r: Vec<char>)
    requires
        a <= b <= s@.len(),
    ensures
        r@ == s@.subrange(a as int, b as int),
{
    let mut r: Vec<char> = Vec::new();
    let mut i: usize = a;
    while i < b
        invariant
            a <= i <= b <= s@.len(),
            r@ == s@.subrange(a as int, i as int),
        decreases b - i,
    {
        r.push(s[i]);
        assert(s@.subrange(a as int, i + 1 as int) =~= s@.subrange(a as int, i as int).push(
            s@[i as int],
        ));
        i += 1;
    }
    r
}

pub fn check_field_wf(v: &Vec<char>) -> (r: bool)
    ensures
        r == field_wf(v@),
{
    let n = v.len();
    let mut i: usize = 0;
    while i < n
        invariant
            0 <= i <= n,
            n == v@.len(),
            forall|k: int|
                0 <= k < i ==> !is_ctrl_char(v@[k]) || v@[k] == '\n' || v@[k] == '\t' || v@[k]
                    == '\r',
        decreases n - i,
    {
        let c = v[i];
        if (c as u32) < 32 && c != '\n' && c != '\t' && c != '\r' {
            assert(!field_wf(v@));
            return false;
        }
        i += 1;
    }
    true
}

pub fn check_line_safe(v: &Vec<char>) -> (r: bool)
    ensures
        r == line_safe(v@),
{
    let n = v.len();
    let mut i: usize = 0;
    while i < n
        invariant
            0 <= i <= n,
            n == v@.len(),
            forall|k: int| 0 <= k < i ==> !is_ctrl_char(v@[k]),
        decreases n - i,
    {
        let c = v[i];
        if (c as u32) < 32 {
            assert(!line_safe(v@));
            return false;
        }
        i += 1;
    }
    true
}

pub fn check_raw_value_wf(v: &Vec<char>) -> (r: bool)
    ensures
        r == raw_value_wf(v@),
{
    let n = v.len();
    if n == 0 {
        return false;
    }
    if is_ws(v[0]) || is_ws(v[n - 1]) {
        return false;
    }
    let mut i: usize = 0;
    let mut depth: usize = 0;
    let mut in_str: bool = false;
    let mut esc: bool = false;
    while i < n
        invariant
            0 <= i <= n,
            n == v@.len(),
            depth <= i,
            scan_fold(v@.take(i as int), scan_init()) == (ScanState {
                depth: depth as nat,
                in_str,
                esc,
            }),
            forall|k: int|
                0 <= k < i ==> !scan_stops(scan_fold(#[trigger] v@.take(k), scan_init()), v@[k]),
        decreases n - i,
    {
        let c = v[i];
        let ghost st = ScanState { depth: depth as nat, in_str, esc };
        if !in_str && depth == 0 && (c == ',' || c == '}' || c == ']') {
            assert(scan_stops(scan_fold(v@.take(i as int), scan_init()), v@[i as int]));
            assert(!raw_value_wf(v@));
            return false;
        }
        if in_str {
            if esc {
                esc = false;
            } else if c == '\\' {
                esc = true;
            } else if c == '"' {
                in_str = false;
            }
        } else {
            if c == '"' {
                in_str = true;
            } else if c == '{' || c == '[' {
                depth += 1;
            } else if (c == '}' || c == ']') && depth > 0 {
                depth -= 1;
            }
        }
        proof {
            assert(v@.take(i + 1) =~= v@.take(i as int).push(v@[i as int]));
            lemma_scan_fold_snoc(v@.take(i as int), v@[i as int], scan_init());
            assert(scan_fold(v@.take(i + 1), scan_init()) == scan_step(st, v@[i as int]));
        }
        i += 1;
    }
    assert(v@.take(n as int) =~= v@);
    if depth == 0 && !in_str && !esc {
        assert(scan_fold(v@, scan_init()) == scan_init());
        true
    } else {
        assert(scan_fold(v@, scan_init()) != scan_init());
        false
    }
}

pub fn is_ws(c: char) -> (r: bool)
    ensures
        r == is_ws_char(c),
{
    c == ' ' || c == '\n' || c == '\t' || c == '\r'
}

pub fn skip_ws(s: &Vec<char>, i: usize) -> (j: usize)
    requires
        i <= s@.len(),
    ensures
        j as int == sp_skip_ws(s@, i as int),
        i <= j <= s@.len(),
{
    let n = s.len();
    let mut j: usize = i;
    while j < n && is_ws(s[j])
        invariant
            i <= j <= n,
            n == s@.len(),
            sp_skip_ws(s@, i as int) == sp_skip_ws(s@, j as int),
        decreases n - j,
    {
        j += 1;
    }
    j
}

pub fn trim_end(v: Vec<char>) -> (r: Vec<char>)
    ensures
        r@ == trim_end_ws(v@),
{
    let mut r = v;
    while r.len() > 0 && is_ws(r[r.len() - 1])
        invariant
            trim_end_ws(r@) == trim_end_ws(v@),
        decreases r@.len(),
    {
        let ghost before = r@;
        let _ = r.pop();
        assert(r@ =~= before.drop_last());
    }
    r
}

pub fn unescape_code(c: char) -> (r: Option<char>)
    ensures
        r == unesc_code(c),
{
    if c == '"' {
        Some('"')
    } else if c == '\\' {
        Some('\\')
    } else if c == '/' {
        Some('/')
    } else if c == 'n' {
        Some('\n')
    } else if c == 't' {
        Some('\t')
    } else if c == 'r' {
        Some('\r')
    } else {
        None
    }
}

/// Parse a JSON string body starting just after its opening quote.
pub fn parse_str_body(s: &Vec<char>, i: usize) -> (r: Option<(Vec<char>, usize)>)
    requires
        i <= s@.len(),
    ensures
        match r {
            Some(p) => sp_str_body(s@, i as int) == Some((p.0@, p.1 as int)) && i < p.1 <= s@.len(),
            None => sp_str_body(s@, i as int) is None,
        },
{
    let n = s.len();
    let mut acc: Vec<char> = Vec::new();
    let mut cur: usize = i;
    loop
        invariant
            i <= cur <= n,
            n == s@.len(),
            forall|t: Seq<char>, j: int|
                sp_str_body(s@, cur as int) == Some((t, j)) ==> sp_str_body(s@, i as int) == Some(
                    (acc@ + t, j),
                ),
            sp_str_body(s@, cur as int) is None ==> sp_str_body(s@, i as int) is None,
        decreases n - cur,
    {
        if cur >= n {
            assert(sp_str_body(s@, cur as int) is None);
            return None;
        }
        let c = s[cur];
        if c == '"' {
            assert(sp_str_body(s@, cur as int) == Some((Seq::<char>::empty(), cur + 1)));
            assert(acc@ + Seq::<char>::empty() =~= acc@);
            return Some((acc, cur + 1));
        } else if c == '\\' {
            if cur + 1 >= n {
                assert(sp_str_body(s@, cur as int) is None);
                return None;
            }
            match unescape_code(s[cur + 1]) {
                None => {
                    assert(sp_str_body(s@, cur as int) is None);
                    return None;
                },
                Some(u) => {
                    let ghost prev = acc@;
                    acc.push(u);
                    proof {
                        assert forall|t: Seq<char>, j: int|
                            sp_str_body(s@, cur + 2) == Some((t, j)) implies sp_str_body(
                            s@,
                            i as int,
                        ) == Some((acc@ + t, j)) by {
                            assert(sp_str_body(s@, cur as int) == Some(
                                (seq![u] + t, j),
                            ));
                            assert(prev + (seq![u] + t) =~= acc@ + t);
                        }
                    }
                    cur += 2;
                },
            }
        } else if (c as u32) < 32 {
            assert(is_ctrl_char(s@[cur as int]));
            assert(sp_str_body(s@, cur as int) is None);
            return None;
        } else {
            let ghost prev = acc@;
            acc.push(c);
            proof {
                assert(!is_ctrl_char(s@[cur as int]));
                assert forall|t: Seq<char>, j: int| sp_str_body(s@, cur + 1) == Some(
                    (t, j),
                ) implies sp_str_body(s@, i as int) == Some((acc@ + t, j)) by {
                    assert(sp_str_body(s@, cur as int) == Some((seq![c] + t, j)));
                    assert(prev + (seq![c] + t) =~= acc@ + t);
                }
            }
            cur += 1;
        }
    }
}

/// Scan one raw value: the index of the separator or bracket that ends it.
pub fn scan_raw(s: &Vec<char>, i: usize) -> (r: Option<usize>)
    requires
        i <= s@.len(),
    ensures
        match r {
            Some(j) => sp_scan_raw(s@, i as int, scan_init()) == Some(j as int) && i <= j
                < s@.len() && (s@[j as int] == ',' || s@[j as int] == '}' || s@[j as int] == ']'),
            None => sp_scan_raw(s@, i as int, scan_init()) is None,
        },
{
    let n = s.len();
    let mut cur: usize = i;
    let mut depth: usize = 0;
    let mut in_str: bool = false;
    let mut esc: bool = false;
    loop
        invariant
            i <= cur <= n,
            n == s@.len(),
            depth <= cur,
            sp_scan_raw(s@, i as int, scan_init()) == sp_scan_raw(
                s@,
                cur as int,
                ScanState { depth: depth as nat, in_str, esc },
            ),
        decreases n - cur,
    {
        if cur >= n {
            return None;
        }
        let c = s[cur];
        if !in_str && depth == 0 && (c == ',' || c == '}' || c == ']') {
            assert(scan_stops(ScanState { depth: depth as nat, in_str, esc }, s@[cur as int]));
            return Some(cur);
        }
        let ghost st = ScanState { depth: depth as nat, in_str, esc };
        if in_str {
            if esc {
                esc = false;
            } else if c == '\\' {
                esc = true;
            } else if c == '"' {
                in_str = false;
            }
        } else {
            if c == '"' {
                in_str = true;
            } else if c == '{' || c == '[' {
                depth += 1;
            } else if (c == '}' || c == ']') && depth > 0 {
                depth -= 1;
            }
        }
        proof {
            assert(ScanState { depth: depth as nat, in_str, esc } == scan_step(
                st,
                s@[cur as int],
            ));
        }
        cur += 1;
    }
}

/// Parse the members of an object, entered just after the opening brace.
pub fn parse_members(s: &Vec<char>, start: usize) -> (r: Option<(Vec<Member>, usize)>)
    requires
        start <= s@.len(),
    ensures
        match r {
            Some(p) => sp_member_list(s@, start as int) == Some((members_view(p.0@), p.1 as int))
                && p.1 <= s@.len(),
            None => sp_member_list(s@, start as int) is None,
        },
{
    let n = s.len();
    let mut acc: Vec<Member> = Vec::new();
    let mut cur: usize = start;
    loop
        invariant
            start <= cur <= n,
            n == s@.len(),
            forall|rest: Seq<RawMember>, j: int|
                sp_member_list(s@, cur as int) == Some((rest, j)) ==> sp_member_list(
                    s@,
                    start as int,
                ) == Some((members_view(acc@) + rest, j)),
            sp_member_list(s@, cur as int) is None ==> sp_member_list(s@, start as int) is None,
        decreases n - cur,
    {
        let j = skip_ws(s, cur);
        if j >= n || s[j] != '"' {
            assert(sp_member_list(s@, cur as int) is None);
            return None;
        }
        match parse_str_body(s, j + 1) {
            None => {
                assert(sp_member_list(s@, cur as int) is None);
                return None;
            },
            Some((key, j2)) => {
                let j3 = skip_ws(s, j2);
                if j3 >= n || s[j3] != ':' {
                    assert(sp_member_list(s@, cur as int) is None);
                    return None;
                }
                let j4 = skip_ws(s, j3 + 1);
                match scan_raw(s, j4) {
                    None => {
                        assert(sp_member_list(s@, cur as int) is None);
                        return None;
                    },
                    Some(j5) => {
                        let raw = copy_range(s, j4, j5);
                        let value = trim_end(raw);
                        if value.len() == 0 {
                            assert(sp_member_list(s@, cur as int) is None);
                            return None;
                        }
                        let c = s[j5];
                        let ghost kv = (key@, value@);
                        if c == ',' {
                            let ghost prev = acc@;
                            let ghost oldcur = cur as int;
                            acc.push(Member { key, value });
                            cur = j5 + 1;
                            proof {
                                assert(members_view(acc@) =~= members_view(prev) + seq![kv]);
                                assert forall|rest: Seq<RawMember>, j: int|
                                    sp_member_list(s@, cur as int) == Some(
                                        (rest, j),
                                    ) implies sp_member_list(s@, start as int) == Some(
                                    (members_view(acc@) + rest, j),
                                ) by {
                                    assert(sp_member_list(s@, oldcur) == Some(
                                        (seq![kv] + rest, j),
                                    ));
                                    assert(members_view(prev) + (seq![kv] + rest) =~= members_view(
                                        acc@,
                                    ) + rest);
                                }
                                assert(sp_member_list(s@, cur as int) is None
                                    ==> sp_member_list(s@, oldcur) is None);
                            }
                        } else if c == '}' {
                            let ghost prev = acc@;
                            acc.push(Member { key, value });
                            proof {
                                assert(sp_member_list(s@, cur as int) == Some((seq![kv], j5 + 1)));
                                assert(members_view(prev) + seq![kv] =~= members_view(acc@));
                            }
                            return Some((acc, j5 + 1));
                        } else {
                            assert(sp_member_list(s@, cur as int) is None);
                            return None;
                        }
                    },
                }
            },
        }
    }
}

pub proof fn lemma_scan_fold_concat(a: Seq<char>, b: Seq<char>, st: ScanState)
    ensures
        scan_fold(a + b, st) == scan_fold(b, scan_fold(a, st)),
    decreases a.len(),
{
    if a.len() == 0 {
        assert(a + b =~= b);
    } else {
        assert((a + b)[0] == a[0]);
        assert((a + b).drop_first() =~= a.drop_first() + b);
        lemma_scan_fold_concat(a.drop_first(), b, scan_step(st, a[0]));
    }
}

pub proof fn lemma_escape_no_ctrl(f: Seq<char>)
    requires
        field_wf(f),
    ensures
        forall|i: int| 0 <= i < escape(f).len() ==> !is_ctrl_char(#[trigger] escape(f)[i]),
    decreases f.len(),
{
    if f.len() == 0 {
    } else {
        let c = f[0];
        let f2 = f.drop_first();
        assert(field_wf(f2)) by {
            assert(forall|k: int| 0 <= k < f2.len() ==> #[trigger] f2[k] == f[k + 1]);
        }
        lemma_escape_no_ctrl(f2);
        assert(escape(f) == escape_char(c) + escape(f2));
        assert forall|i: int| 0 <= i < escape(f).len() implies !is_ctrl_char(
            #[trigger] escape(f)[i],
        ) by {
            if i < escape_char(c).len() {
                assert(escape(f)[i] == escape_char(c)[i]);
            } else {
                assert(escape(f)[i] == escape(f2)[i - escape_char(c).len()]);
            }
        }
    }
}

/// Inside a string, escaped text keeps the scanner inside the string and
/// hands the state back unchanged.
pub proof fn lemma_scan_escape(f: Seq<char>)
    requires
        field_wf(f),
    ensures
        scan_fold(escape(f), ScanState { depth: 0, in_str: true, esc: false }) == (ScanState {
            depth: 0,
            in_str: true,
            esc: false,
        }),
        forall|i: int|
            0 <= i < escape(f).len() ==> scan_fold(
                #[trigger] escape(f).take(i),
                ScanState { depth: 0, in_str: true, esc: false },
            ).in_str,
    decreases f.len(),
{
    let stin = ScanState { depth: 0, in_str: true, esc: false };
    if f.len() == 0 {
    } else {
        let c = f[0];
        let f2 = f.drop_first();
        assert(field_wf(f2)) by {
            assert(forall|k: int| 0 <= k < f2.len() ==> #[trigger] f2[k] == f[k + 1]);
        }
        lemma_scan_escape(f2);
        let b = escape_char(c);
        assert(escape(f) == b + escape(f2));
        let stesc = ScanState { depth: 0, in_str: true, esc: true };
        assert(scan_fold(Seq::<char>::empty(), stin) == stin);
        assert(scan_fold(b, stin) == stin) by {
            if esc_code(c) is Some {
                let e1 = esc_code(c).unwrap();
                assert(b == seq!['\\', e1]);
                assert(b.drop_first() =~= seq![e1]);
                assert(seq![e1].drop_first() =~= Seq::<char>::empty());
                assert(scan_step(stin, '\\') == stesc);
                assert(scan_step(stesc, e1) == stin);
                assert(scan_fold(b, stin) == scan_fold(seq![e1], stesc));
                assert(scan_fold(seq![e1], stesc) == scan_fold(Seq::<char>::empty(), stin));
            } else {
                assert(b == seq![c]);
                assert(b.drop_first() =~= Seq::<char>::empty());
                assert(c != '"' && c != '\\');
                assert(scan_step(stin, c) == stin);
                assert(scan_fold(b, stin) == scan_fold(Seq::<char>::empty(), stin));
            }
        }
        lemma_scan_fold_concat(b, escape(f2), stin);
        assert(scan_fold(escape(f), stin) == stin);
        assert forall|i: int| 0 <= i < escape(f).len() implies scan_fold(
            #[trigger] escape(f).take(i),
            stin,
        ).in_str by {
            if i < b.len() {
                if i == 0 {
                    assert(escape(f).take(i) =~= Seq::<char>::empty());
                    assert(scan_fold(escape(f).take(i), stin) == stin);
                } else {
                    assert(i == 1 && b.len() == 2);
                    assert(escape(f).take(i) =~= seq!['\\']);
                    assert(seq!['\\'].drop_first() =~= Seq::<char>::empty());
                    assert(scan_step(stin, '\\') == stesc);
                    assert(scan_fold(seq!['\\'], stin) == scan_fold(
                        Seq::<char>::empty(),
                        stesc,
                    ));
                    assert(scan_fold(Seq::<char>::empty(), stesc) == stesc);
                }
            } else {
                assert(escape(f).take(i) =~= b + escape(f2).take(i - b.len()));
                lemma_scan_fold_concat(b, escape(f2).take(i - b.len()), stin);
                if i - b.len() < escape(f2).len() {
                    assert(scan_fold(escape(f2).take(i - b.len()), stin).in_str);
                } else {
                    assert(i - b.len() == escape(f2).len());
                    assert(escape(f2).take(i - b.len()) =~= escape(f2));
                }
            }
        }
    }
}

/// A quoted field is a well-formed raw value, free of control characters.
pub proof fn lemma_quote_raw_wf(f: Seq<char>)
    requires
        field_wf(f),
    ensures
        raw_value_wf(quote(f)),
        line_safe(quote(f)),
{
    let stin = ScanState { depth: 0, in_str: true, esc: false };
    let q = quote(f);
    let e = escape(f);
    lemma_escape_no_ctrl(f);
    lemma_scan_escape(f);
    assert(q.len() == e.len() + 2);
    assert(q[0] == '"');
    assert(q[q.len() - 1] == '"');
    assert forall|i: int| 0 <= i < q.len() implies !is_ctrl_char(q[i]) by {
        if 1 <= i <= e.len() {
            assert(q[i] == e[i - 1]);
        }
    }
    // the scanner's walk through the quoted text
    assert(seq!['"'].drop_first() =~= Seq::<char>::empty());
    assert(scan_step(scan_init(), '"') == stin);
    assert(scan_fold(seq!['"'], scan_init()) == scan_fold(Seq::<char>::empty(), stin));
    assert(scan_fold(Seq::<char>::empty(), stin) == stin);
    assert forall|i: int| 0 <= i < q.len() implies !scan_stops(
        scan_fold(#[trigger] q.take(i), scan_init()),
        q[i],
    ) by {
        if i == 0 {
            assert(q.take(0) =~= Seq::<char>::empty());
            assert(q[0] == '"');
        } else if i <= e.len() {
            assert(q.take(i) =~= seq!['"'] + e.take(i - 1));
            lemma_scan_fold_concat(seq!['"'], e.take(i - 1), scan_init());
            if i - 1 < e.len() {
                assert(scan_fold(e.take(i - 1), stin).in_str);
            } else {
                assert(e.take(i - 1) =~= e);
            }
        } else {
            assert(i == e.len() + 1);
            assert(q[i] == '"');
        }
    }
    assert(q =~= (seq!['"'] + e).push('"'));
    lemma_scan_fold_concat(seq!['"'], e, scan_init());
    lemma_scan_fold_snoc(seq!['"'] + e, '"', scan_init());
    assert(scan_fold(q, scan_init()) == scan_init());
}

pub proof fn lemma_line_safe_concat(a: Seq<char>, b: Seq<char>)
    requires
        line_safe(a),
        line_safe(b),
    ensures
        line_safe(a + b),
{
    assert forall|i: int| 0 <= i < (a + b).len() implies !is_ctrl_char((a + b)[i]) by {
        if i < a.len() {
            assert((a + b)[i] == a[i]);
        } else {
            assert((a + b)[i] == b[i - a.len()]);
        }
    }
}

pub proof fn lemma_enc_members_line_safe(p: Seq<RawMember>)
    requires
        forall|i: int| 0 <= i < p.len() ==> field_wf((#[trigger] p[i]).0) && line_safe(p[i].1),
    ensures
        line_safe(enc_members(p, false)),
    decreases p.len(),
{
    let close = enc_close(false);
    assert(line_safe(close)) by {
        assert(forall|i: int| 0 <= i < close.len() ==> close[i] == '}');
    }
    if p.len() == 0 {
    } else {
        let pt = enc_pair(p[0], false);
        assert(line_safe(pt)) by {
            lemma_quote_raw_wf(p[0].0);
            assert(line_safe(enc_colon(false))) by {
                assert(forall|i: int|
                    0 <= i < enc_colon(false).len() ==> enc_colon(false)[i] == ':');
            }
            assert(enc_lead(false) + quote(p[0].0) =~= quote(p[0].0));
            lemma_line_safe_concat(enc_lead(false) + quote(p[0].0), enc_colon(false));
            lemma_line_safe_concat(enc_lead(false) + quote(p[0].0) + enc_colon(false), p[0].1);
        }
        if p.len() == 1 {
            lemma_line_safe_concat(pt, close);
        } else {
            assert forall|i: int| 0 <= i < p.drop_first().len() implies field_wf(
                (#[trigger] p.drop_first()[i]).0,
            ) && line_safe(p.drop_first()[i].1) by {
                assert(p.drop_first()[i] == p[i + 1]);
                assert(field_wf(p[i + 1].0) && line_safe(p[i + 1].1));
            }
            lemma_enc_members_line_safe(p.drop_first());
            assert(line_safe(seq![','])) by {
                assert(forall|i: int| 0 <= i < 1 ==> seq![','][i] == ',');
            }
            lemma_line_safe_concat(pt, seq![',']);
            lemma_line_safe_concat(pt + seq![','], enc_members(p.drop_first(), false));
        }
    }
}

pub proof fn lemma_enc_obj_line_safe(p: Seq<RawMember>)
    requires
        forall|i: int| 0 <= i < p.len() ==> field_wf((#[trigger] p[i]).0) && line_safe(p[i].1),
    ensures
        line_safe(enc_obj(p, false)),
{
    assert(line_safe(seq!['{'])) by {
        assert(forall|i: int| 0 <= i < 1 ==> seq!['{'][i] == '{');
    }
    if p.len() == 0 {
        assert(line_safe(seq!['{', '}'])) by {
            assert(seq!['{', '}'][0] == '{' && seq!['{', '}'][1] == '}');
        }
    } else {
        lemma_enc_members_line_safe(p);
        lemma_line_safe_concat(seq!['{'], enc_members(p, false));
    }
}

/// Parse a whole object from characters.
pub fn parse_obj_chars(s: &Vec<char>) -> (r: Option<Vec<Member>>)
    ensures
        match r {
            Some(ms) => sp_parse_obj(s@) == Some(members_view(ms@)),
            None => sp_parse_obj(s@) is None,
        },
{
    let n = s.len();
    let j = skip_ws(s, 0);
    if j >= n || s[j] != '{' {
        return None;
    }
    let j1 = skip_ws(s, j + 1);
    if j1 < n && s[j1] == '}' {
        if skip_ws(s, j1 + 1) == n {
            let ms: Vec<Member> = Vec::new();
            assert(members_view(ms@) =~= Seq::<RawMember>::empty());
            Some(ms)
        } else {
            None
        }
    } else {
        match parse_members(s, j + 1) {
            None => None,
            Some((ms, j2)) => {
                if skip_ws(s, j2) == n {
                    Some(ms)
                } else {
                    None
                }
            },
        }
    }
}

pub fn push_all(out: &mut Vec<char>, xs: &Vec<char>)
    ensures
        final(out)@ == old(out)@ + xs@,
{
    let n = xs.len();
    let mut i: usize = 0;
    while i < n
        invariant
            0 <= i <= n,
            n == xs@.len(),
            out@ == old(out)@ + xs@.take(i as int),
        decreases n - i,
    {
        out.push(xs[i]);
        assert(old(out)@ + xs@.take(i + 1) =~= (old(out)@ + xs@.take(i as int)).push(
            xs@[i as int],
        ));
        i += 1;
    }
    assert(xs@.take(n as int) =~= xs@);
}

pub fn escape_code(c: char) -> (r: Option<char>)
    ensures
        r == esc_code(c),
{
    if c == '"' {
        Some('"')
    } else if c == '\\' {
        Some('\\')
    } else if c == '\n' {
        Some('n')
    } else if c == '\t' {
        Some('t')
    } else if c == '\r' {
        Some('r')
    } else {
        None
    }
}

pub fn push_escaped(out: &mut Vec<char>, f: &Vec<char>)
    ensures
        final(out)@ == old(out)@ + escape(f@),
{
    let n = f.len();
    let mut i: usize = 0;
    while i < n
        invariant
            0 <= i <= n,
            n == f@.len(),
            out@ == old(out)@ + escape(f@.take(i as int)),
        decreases n - i,
    {
        let c = f[i];
        let ghost pre = out@;
        match escape_code(c) {
            Some(e) => {
                out.push('\\');
                out.push(e);
                assert(out@ =~= pre + escape_char(c));
            },
            None => {
                out.push(c);
                assert(out@ =~= pre + escape_char(c));
            },
        }
        proof {
            assert(f@.take(i + 1) =~= f@.take(i as int).push(f@[i as int]));
            lemma_escape_snoc(f@.take(i as int), f@[i as int]);
            assert(pre + escape_char(c) =~= old(out)@ + escape(f@.take(i + 1)));
        }
        i += 1;
    }
    assert(f@.take(n as int) =~= f@);
}

pub fn push_quoted(out: &mut Vec<char>, f: &Vec<char>)
    ensures
        final(out)@ == old(out)@ + quote(f@),
{
    let ghost pre = out@;
    out.push('"');
    push_escaped(out, f);
    out.push('"');
    assert(out@ =~= pre + quote(f@));
}

pub fn push_lead(out: &mut Vec<char>, pretty: bool)
    ensures
        final(out)@ == old(out)@ + enc_lead(pretty),
{
    if pretty {
        out.push('\n');
        out.push(' ');
        out.push(' ');
        assert(out@ =~= old(out)@ + enc_lead(pretty));
    } else {
        assert(out@ =~= old(out)@ + enc_lead(pretty));
    }
}

pub fn push_colon(out: &mut Vec<char>, pretty: bool)
    ensures
        final(out)@ == old(out)@ + enc_colon(pretty),
{
    out.push(':');
    if pretty {
        out.push(' ');
    }
    assert(out@ =~= old(out)@ + enc_colon(pretty));
}

pub fn push_close(out: &mut Vec<char>, pretty: bool)
    ensures
        final(out)@ == old(out)@ + enc_close(pretty),
{
    if pretty {
        out.push('\n');
    }
    out.push('}');
    assert(out@ =~= old(out)@ + enc_close(pretty));
}

/// Write a whole object, compact or pretty-printed.
pub fn encode_obj(p: &Vec<Member>, pretty: bool) -> (r: Vec<char>)
    ensures
        r@ == enc_obj(members_view(p@), pretty),
{
    let ghost pv = members_view(p@);
    let mut out: Vec<char> = Vec::new();
    out.push('{');
    let n = p.len();
    if n == 0 {
        out.push('}');
        assert(out@ =~= seq!['{', '}']);
        return out;
    }
    assert(out@ =~= Seq::<char>::empty().push('{'));
    assert(out@ + enc_members(pv.skip(0), pretty) =~= seq!['{'] + enc_members(pv, pretty)) by {
        assert(pv.skip(0) =~= pv);
    }
    let mut idx: usize = 0;
    loop
        invariant
            0 <= idx < n,
            n == p@.len(),
            pv == members_view(p@),
            enc_obj(pv, pretty) == out@ + enc_members(pv.skip(idx as int), pretty),
        decreases n - idx,
    {
        let ghost tail = pv.skip(idx as int);
        proof {
            assert(tail.len() == n - idx);
            assert(tail[0] == pv[idx as int]);
            assert(pv[idx as int] == member_view(p@[idx as int]));
            assert(tail.drop_first() =~= pv.skip(idx + 1));
        }
        let ghost pre = out@;
        push_lead(&mut out, pretty);
        push_quoted(&mut out, &p[idx].key);
        push_colon(&mut out, pretty);
        push_all(&mut out, &p[idx].value);
        proof {
            assert(out@ =~= pre + enc_pair(tail[0], pretty));
        }
        if idx == n - 1 {
            push_close(&mut out, pretty);
            proof {
                assert(enc_members(tail, pretty) == enc_pair(tail[0], pretty) + enc_close(pretty));
                assert(out@ =~= pre + (enc_pair(tail[0], pretty) + enc_close(pretty)));
                assert(out@ =~= enc_obj(pv, pretty));
            }
            return out;
        } else {
            out.push(',');
            proof {
                assert(enc_members(tail, pretty) == enc_pair(tail[0], pretty) + seq![',']
                    + enc_members(tail.drop_first(), pretty));
                assert(out@ =~= pre + (enc_pair(tail[0], pretty) + seq![',']));
                assert(enc_obj(pv, pretty) == out@ + enc_members(pv.skip(idx + 1), pretty)) by {
                    assert(pre + (enc_pair(tail[0], pretty) + seq![',']) + enc_members(
                        pv.skip(idx + 1),
                        pretty,
                    ) =~= pre + enc_members(tail, pretty));
                }
            }
            idx += 1;
        }
    }
}

} // verus!
