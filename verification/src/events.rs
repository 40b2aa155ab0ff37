//! Event records and the durable queue.
//!
//! An event record is one immutable telemetry occurrence.  It travels to the
//! collection endpoint as a JSON object and rests in the queue file as one
//! JSON line; decoding accepts the current name of the type member and a
//! legacy one, and always re-encodes under the current name.
use vstd::prelude::*;

use crate::json::chars_eq;
use crate::json::chars_of;
use crate::json::check_field_wf;
use crate::json::check_line_safe;
use crate::json::check_raw_value_wf;
use crate::json::copy_range;
use crate::json::enc_obj;
use crate::json::encode_obj;
use crate::json::escape;
use crate::json::field_wf;
use crate::json::is_ctrl_char;
use crate::json::lemma_parse_obj_rt;
use crate::json::lemma_str_body_quoted;
use crate::json::line_safe;
use crate::json::lookup;
use crate::json::Member;
use crate::json::member_view;
use crate::json::members_view;
use crate::json::pairs_wf;
use crate::json::parse_obj_chars;
use crate::json::parse_str_body;
use crate::json::push_quoted;
use crate::json::quote;
use crate::json::raw_value_wf;
use crate::json::RawMember;
use crate::json::sp_parse_obj;
use crate::json::sp_str_body;
use crate::json::string_from_chars;

verus! {

/// The mathematical content of one event record.
pub struct EventData {
    pub slug: Seq<char>,
    pub type_s: Seq<char>,
    pub metadata: Seq<char>,
    pub user_id: Seq<char>,
    pub invocation_id: Seq<char>,
    pub datetime: Seq<char>,
}

/// One telemetry occurrence.  `metadata` holds the raw JSON text of the
/// payload, which this crate frames but does not interpret.
pub struct Event {
    pub slug: String,
    pub type_s: String,
    pub metadata: String,
    pub user_id: String,
    pub invocation_id: String,
    pub datetime: String,
}

impl View for Event {
    type V = EventData;

    open spec fn view(&self) -> EventData {
        EventData {
            slug: self.slug@,
            type_s: self.type_s@,
            metadata: self.metadata@,
            user_id: self.user_id@,
            invocation_id: self.invocation_id@,
            datetime: self.datetime@,
        }
    }
}

/// The fields can be written losslessly and the whole record fits on one
/// line of the queue file.
pub open spec fn event_wf(e: EventData) -> bool {
    &&& field_wf(e.slug)
    &&& field_wf(e.type_s)
    &&& field_wf(e.user_id)
    &&& field_wf(e.invocation_id)
    &&& field_wf(e.datetime)
    &&& raw_value_wf(e.metadata)
    &&& line_safe(e.metadata)
}

/// The members of an encoded event record, in the order they are written.
pub open spec fn event_pairs(e: EventData) -> Seq<RawMember> {
    seq![
        ("slug"@, quote(e.slug)),
        ("type"@, quote(e.type_s)),
        ("metadata"@, e.metadata),
        ("user_id"@, quote(e.user_id)),
        ("invocation_id"@, quote(e.invocation_id)),
        ("datetime"@, quote(e.datetime)),
    ]
}

/// The same members under the legacy name of the type member, which older
/// queue files may hold.  Only decoding knows this shape.
pub open spec fn event_pairs_legacy(e: EventData) -> Seq<RawMember> {
    seq![
        ("slug"@, quote(e.slug)),
        ("type_s"@, quote(e.type_s)),
        ("metadata"@, e.metadata),
        ("user_id"@, quote(e.user_id)),
        ("invocation_id"@, quote(e.invocation_id)),
        ("datetime"@, quote(e.datetime)),
    ]
}

/// One event record as one compact JSON object.
pub open spec fn sp_encode_event(e: EventData) -> Seq<char> {
    enc_obj(event_pairs(e), false)
}

/// One event record pretty-printed, as shown to the user in a prompt.
pub open spec fn sp_encode_event_pretty(e: EventData) -> Seq<char> {
    enc_obj(event_pairs(e), true)
}

/// A member value that must be a JSON string: unescaped, whole.
pub open spec fn sp_unquote(raw: Seq<char>) -> Option<Seq<char>> {
    if raw.len() >= 1 && raw[0] == '"' {
        match sp_str_body(raw, 1) {
            Some((t, j)) => if j == raw.len() {
                Some(t)
            } else {
                None
            },
            None => None,
        }
    } else {
        None
    }
}

pub open spec fn sp_field_string(p: Seq<RawMember>, k: Seq<char>) -> Option<Seq<char>> {
    match lookup(p, k) {
        None => None,
        Some(raw) => sp_unquote(raw),
    }
}

/// Decode one event record from JSON text.  The type member is read under
/// its current name first, then under the legacy name.
pub open spec fn sp_decode_event(s: Seq<char>) -> Option<EventData> {
    match sp_parse_obj(s) {
        None => None,
        Some(p) => {
            let ty = if lookup(p, "type"@) is Some {
                sp_field_string(p, "type"@)
            } else {
                sp_field_string(p, "type_s"@)
            };
            match (sp_field_string(p, "slug"@), ty, lookup(p, "metadata"@)) {
                (Some(sl), Some(t), Some(md)) => {
                    match (
                        sp_field_string(p, "user_id"@),
                        sp_field_string(p, "invocation_id"@),
                        sp_field_string(p, "datetime"@),
                    ) {
                        (Some(ui), Some(iv), Some(dt)) => Some(
                            EventData {
                                slug: sl,
                                type_s: t,
                                metadata: md,
                                user_id: ui,
                                invocation_id: iv,
                                datetime: dt,
                            },
                        ),
                        _ => None,
                    }
                },
                _ => None,
            }
        },
    }
}

pub proof fn lemma_unquote_quote(f: Seq<char>)
    requires
        field_wf(f),
    ensures
        sp_unquote(quote(f)) == Some(f),
{
    let q = quote(f);
    assert(q[0] == '"');
    assert(q.subrange(1, 1 + escape(f).len() as int + 1) =~= escape(f) + seq!['"']);
    crate::json::lemma_str_body_quoted(q, 1, f);
}

proof fn reveal_event_keys()
    ensures
        "slug"@ != "type"@,
        "slug"@ != "type_s"@,
        "metadata"@ != "datetime"@,
        "slug"@.len() == 4,
        "type"@.len() == 4,
        "type_s"@.len() == 6,
        "metadata"@.len() == 8,
        "user_id"@.len() == 7,
        "invocation_id"@.len() == 13,
        "datetime"@.len() == 8,
        field_wf("slug"@),
        field_wf("type"@),
        field_wf("type_s"@),
        field_wf("metadata"@),
        field_wf("user_id"@),
        field_wf("invocation_id"@),
        field_wf("datetime"@),
{
    reveal_strlit("slug");
    reveal_strlit("type");
    reveal_strlit("type_s");
    reveal_strlit("metadata");
    reveal_strlit("user_id");
    reveal_strlit("invocation_id");
    reveal_strlit("datetime");
    assert("slug"@[0] != "type"@[0]);
    assert("metadata"@[0] != "datetime"@[0]);
}

pub proof fn lemma_event_pairs_wf(e: EventData)
    requires
        event_wf(e),
    ensures
        pairs_wf(event_pairs(e)),
        pairs_wf(event_pairs_legacy(e)),
{
    reveal_event_keys();
    crate::json::lemma_quote_raw_wf(e.slug);
    crate::json::lemma_quote_raw_wf(e.type_s);
    crate::json::lemma_quote_raw_wf(e.user_id);
    crate::json::lemma_quote_raw_wf(e.invocation_id);
    crate::json::lemma_quote_raw_wf(e.datetime);
    let p = event_pairs(e);
    assert forall|i: int| 0 <= i < p.len() implies field_wf((#[trigger] p[i]).0) && raw_value_wf(
        p[i].1,
    ) by {
        if i == 0 {
        } else if i == 1 {
        } else if i == 2 {
        } else if i == 3 {
        } else if i == 4 {
        } else {
            assert(i == 5);
        }
    }
    let q = event_pairs_legacy(e);
    assert forall|i: int| 0 <= i < q.len() implies field_wf((#[trigger] q[i]).0) && raw_value_wf(
        q[i].1,
    ) by {
        if i == 0 {
        } else if i == 1 {
        } else if i == 2 {
        } else if i == 3 {
        } else if i == 4 {
        } else {
            assert(i == 5);
        }
    }
}

proof fn lemma_event_lookup(e: EventData)
    ensures
        lookup(event_pairs(e), "slug"@) == Some(quote(e.slug)),
        lookup(event_pairs(e), "type"@) == Some(quote(e.type_s)),
        lookup(event_pairs(e), "metadata"@) == Some(e.metadata),
        lookup(event_pairs(e), "user_id"@) == Some(quote(e.user_id)),
        lookup(event_pairs(e), "invocation_id"@) == Some(quote(e.invocation_id)),
        lookup(event_pairs(e), "datetime"@) == Some(quote(e.datetime)),
{
    reveal_event_keys();
    reveal_with_fuel(lookup, 8);
    let p = event_pairs(e);
    let p1 = p.drop_first();
    let p2 = p1.drop_first();
    let p3 = p2.drop_first();
    let p4 = p3.drop_first();
    let p5 = p4.drop_first();
    assert(p1 =~= seq![
        ("type"@, quote(e.type_s)),
        ("metadata"@, e.metadata),
        ("user_id"@, quote(e.user_id)),
        ("invocation_id"@, quote(e.invocation_id)),
        ("datetime"@, quote(e.datetime)),
    ]);
    assert(p2 =~= seq![
        ("metadata"@, e.metadata),
        ("user_id"@, quote(e.user_id)),
        ("invocation_id"@, quote(e.invocation_id)),
        ("datetime"@, quote(e.datetime)),
    ]);
    assert(p3 =~= seq![
        ("user_id"@, quote(e.user_id)),
        ("invocation_id"@, quote(e.invocation_id)),
        ("datetime"@, quote(e.datetime)),
    ]);
    assert(p4 =~= seq![
        ("invocation_id"@, quote(e.invocation_id)),
        ("datetime"@, quote(e.datetime)),
    ]);
    assert(p5 =~= seq![("datetime"@, quote(e.datetime))]);
}

proof fn lemma_event_lookup_legacy(e: EventData)
    ensures
        lookup(event_pairs_legacy(e), "slug"@) == Some(quote(e.slug)),
        lookup(event_pairs_legacy(e), "type"@) is None,
        lookup(event_pairs_legacy(e), "type_s"@) == Some(quote(e.type_s)),
        lookup(event_pairs_legacy(e), "metadata"@) == Some(e.metadata),
        lookup(event_pairs_legacy(e), "user_id"@) == Some(quote(e.user_id)),
        lookup(event_pairs_legacy(e), "invocation_id"@) == Some(quote(e.invocation_id)),
        lookup(event_pairs_legacy(e), "datetime"@) == Some(quote(e.datetime)),
{
    reveal_event_keys();
    reveal_with_fuel(lookup, 8);
    let p = event_pairs_legacy(e);
    let p1 = p.drop_first();
    let p2 = p1.drop_first();
    let p3 = p2.drop_first();
    let p4 = p3.drop_first();
    let p5 = p4.drop_first();
    let p6 = p5.drop_first();
    assert(p1 =~= seq![
        ("type_s"@, quote(e.type_s)),
        ("metadata"@, e.metadata),
        ("user_id"@, quote(e.user_id)),
        ("invocation_id"@, quote(e.invocation_id)),
        ("datetime"@, quote(e.datetime)),
    ]);
    assert(p2 =~= seq![
        ("metadata"@, e.metadata),
        ("user_id"@, quote(e.user_id)),
        ("invocation_id"@, quote(e.invocation_id)),
        ("datetime"@, quote(e.datetime)),
    ]);
    assert(p3 =~= seq![
        ("user_id"@, quote(e.user_id)),
        ("invocation_id"@, quote(e.invocation_id)),
        ("datetime"@, quote(e.datetime)),
    ]);
    assert(p4 =~= seq![
        ("invocation_id"@, quote(e.invocation_id)),
        ("datetime"@, quote(e.datetime)),
    ]);
    assert(p5 =~= seq![("datetime"@, quote(e.datetime))]);
    assert(p6 =~= Seq::<RawMember>::empty());
}

/// Encoding an event record and decoding the text gives the record back.
pub proof fn lemma_event_round_trip(e: EventData)
    requires
        event_wf(e),
    ensures
        sp_decode_event(sp_encode_event(e)) == Some(e),
{
    lemma_event_pairs_wf(e);
    lemma_parse_obj_rt(event_pairs(e), false);
    lemma_event_lookup(e);
    lemma_unquote_quote(e.slug);
    lemma_unquote_quote(e.type_s);
    lemma_unquote_quote(e.user_id);
    lemma_unquote_quote(e.invocation_id);
    lemma_unquote_quote(e.datetime);
}

/// Text written under the legacy name of the type member decodes to the
/// same record; re-encoding it uses the current name.
pub proof fn lemma_event_decode_legacy(e: EventData)
    requires
        event_wf(e),
    ensures
        sp_decode_event(enc_obj(event_pairs_legacy(e), false)) == Some(e),
{
    lemma_event_pairs_wf(e);
    lemma_parse_obj_rt(event_pairs_legacy(e), false);
    lemma_event_lookup_legacy(e);
    lemma_unquote_quote(e.slug);
    lemma_unquote_quote(e.type_s);
    lemma_unquote_quote(e.user_id);
    lemma_unquote_quote(e.invocation_id);
    lemma_unquote_quote(e.datetime);
}

/// Relies on chrono's `Utc::now` and its `Display` rendering: the timestamp
/// prints as digits, ASCII punctuation and letters — no control characters,
/// no quote, no backslash.
#[verifier::external_body]
fn now_utc_string() -> (r: String)
    ensures
        forall|i: int| 0 <= i < r@.len() ==> !is_ctrl_char(r@[i]) && r@[i] != '"' && r@[i] != '\\',
{
    format!("{}", chrono::Utc::now())
}

impl Event {
    /// Build one record; the timestamp is fixed here, at construction.
    pub fn new(
        slug: &str,
        type_s: &str,
        metadata: String,
        user_id: &str,
        invocation_id: &str,
    ) -> (e: Event)
        ensures
            e@.slug == slug@,
            e@.type_s == type_s@,
            e@.metadata == metadata@,
            e@.user_id == user_id@,
            e@.invocation_id == invocation_id@,
            field_wf(e@.datetime),
    {
        Event {
            slug: slug.to_owned(),
            type_s: type_s.to_owned(),
            metadata,
            user_id: user_id.to_owned(),
            invocation_id: invocation_id.to_owned(),
            datetime: now_utc_string(),
        }
    }
}

/// The members of a record, ready for writing.
fn event_members(e: &Event) -> (ms: Vec<Member>)
    ensures
        members_view(ms@) == event_pairs(e@),
{
    let mut v_slug: Vec<char> = Vec::new();
    push_quoted(&mut v_slug, &chars_of(e.slug.as_str()));
    let mut v_type: Vec<char> = Vec::new();
    push_quoted(&mut v_type, &chars_of(e.type_s.as_str()));
    let v_meta = chars_of(e.metadata.as_str());
    let mut v_user: Vec<char> = Vec::new();
    push_quoted(&mut v_user, &chars_of(e.user_id.as_str()));
    let mut v_invoc: Vec<char> = Vec::new();
    push_quoted(&mut v_invoc, &chars_of(e.invocation_id.as_str()));
    let mut v_dt: Vec<char> = Vec::new();
    push_quoted(&mut v_dt, &chars_of(e.datetime.as_str()));
    let mut ms: Vec<Member> = Vec::new();
    ms.push(Member { key: chars_of("slug"), value: v_slug });
    ms.push(Member { key: chars_of("type"), value: v_type });
    ms.push(Member { key: chars_of("metadata"), value: v_meta });
    ms.push(Member { key: chars_of("user_id"), value: v_user });
    ms.push(Member { key: chars_of("invocation_id"), value: v_invoc });
    ms.push(Member { key: chars_of("datetime"), value: v_dt });
    assert(members_view(ms@) =~= event_pairs(e@)) by {
        assert(ms@.len() == 6);
        assert(member_view(ms@[0]) == ("slug"@, quote(e@.slug)));
        assert(member_view(ms@[1]) == ("type"@, quote(e@.type_s)));
        assert(member_view(ms@[2]) == ("metadata"@, e@.metadata));
        assert(member_view(ms@[3]) == ("user_id"@, quote(e@.user_id)));
        assert(member_view(ms@[4]) == ("invocation_id"@, quote(e@.invocation_id)));
        assert(member_view(ms@[5]) == ("datetime"@, quote(e@.datetime)));
    }
    ms
}

/// One record as one compact JSON line.
pub fn encode_event(e: &Event) -> (r: String)
    ensures
        r@ == sp_encode_event(e@),
{
    let ms = event_members(e);
    let out = encode_obj(&ms, false);
    string_from_chars(&out)
}

/// One record pretty-printed for showing to the user.
pub fn encode_event_pretty(e: &Event) -> (r: String)
    ensures
        r@ == sp_encode_event_pretty(e@),
{
    let ms = event_members(e);
    let out = encode_obj(&ms, true);
    string_from_chars(&out)
}

/// The raw value under the first member with this key, copied out.
pub(crate) fn find_value(ms: &Vec<Member>, k: &Vec<char>) -> (r: Option<Vec<char>>)
    ensures
        match r {
            Some(v) => lookup(members_view(ms@), k@) == Some(v@),
            None => lookup(members_view(ms@), k@) is None,
        },
{
    let ghost full = members_view(ms@);
    let n = ms.len();
    let mut i: usize = 0;
    assert(full.skip(0) =~= full);
    while i < n
        invariant
            0 <= i <= n,
            n == ms@.len(),
            full == members_view(ms@),
            lookup(full, k@) == lookup(full.skip(i as int), k@),
        decreases n - i,
    {
        proof {
            assert(full.skip(i as int)[0] == full[i as int]);
            assert(full[i as int] == member_view(ms@[i as int]));
            assert(full.skip(i as int).drop_first() =~= full.skip(i + 1));
        }
        if chars_eq(&ms[i].key, k) {
            let v = copy_range(&ms[i].value, 0, ms[i].value.len());
            assert(v@ =~= ms@[i as int].value@);
            return Some(v);
        }
        i += 1;
    }
    assert(full.skip(n as int) =~= Seq::<RawMember>::empty());
    None
}

pub(crate) fn unquote(raw: &Vec<char>) -> (r: Option<Vec<char>>)
    ensures
        match r {
            Some(t) => sp_unquote(raw@) == Some(t@),
            None => sp_unquote(raw@) is None,
        },
{
    if raw.len() == 0 || raw[0] != '"' {
        return None;
    }
    match parse_str_body(raw, 1) {
        None => None,
        Some((t, j)) => {
            if j == raw.len() {
                Some(t)
            } else {
                None
            }
        },
    }
}

fn find_string(ms: &Vec<Member>, k: &Vec<char>) -> (r: Option<String>)
    ensures
        match r {
            Some(t) => sp_field_string(members_view(ms@), k@) == Some(t@),
            None => sp_field_string(members_view(ms@), k@) is None,
        },
{
    match find_value(ms, k) {
        None => None,
        Some(raw) => match unquote(&raw) {
            None => None,
            Some(t) => Some(string_from_chars(&t)),
        },
    }
}

/// Decode one record from JSON text; `None` when the text does not hold one.
pub fn decode_event(s: &str) -> (r: Option<Event>)
    ensures
        match r {
            Some(e) => sp_decode_event(s@) == Some(e@),
            None => sp_decode_event(s@) is None,
        },
{
    let cs = chars_of(s);
    match parse_obj_chars(&cs) {
        None => None,
        Some(ms) => {
            let slug = find_string(&ms, &chars_of("slug"));
            let ty = match find_value(&ms, &chars_of("type")) {
                Some(raw) => match unquote(&raw) {
                    Some(t) => Some(string_from_chars(&t)),
                    None => None,
                },
                None => find_string(&ms, &chars_of("type_s")),
            };
            let meta = find_value(&ms, &chars_of("metadata"));
            let user = find_string(&ms, &chars_of("user_id"));
            let invoc = find_string(&ms, &chars_of("invocation_id"));
            let dt = find_string(&ms, &chars_of("datetime"));
            match (slug, ty, meta, user, invoc, dt) {
                (Some(sl), Some(t), Some(md), Some(ui), Some(iv), Some(d)) => Some(
                    Event {
                        slug: sl,
                        type_s: t,
                        metadata: string_from_chars(&md),
                        user_id: ui,
                        invocation_id: iv,
                        datetime: d,
                    },
                ),
                _ => None,
            }
        },
    }
}

/// Whether a record can be written losslessly on one queue line.
pub fn event_is_wf(e: &Event) -> (r: bool)
    ensures
        r == event_wf(e@),
{
    let meta = chars_of(e.metadata.as_str());
    check_field_wf(&chars_of(e.slug.as_str())) && check_field_wf(&chars_of(e.type_s.as_str()))
        && check_field_wf(&chars_of(e.user_id.as_str())) && check_field_wf(
        &chars_of(e.invocation_id.as_str()),
    ) && check_field_wf(&chars_of(e.datetime.as_str())) && check_raw_value_wf(&meta)
        && check_line_safe(&meta)
}

// ---------------------------------------------------------------------------
// the durable queue, modelled on its file's text
// ---------------------------------------------------------------------------

/// First index at or after `i` holding a newline, or the length.
pub open spec fn sp_find_nl(s: Seq<char>, i: int) -> int
    decreases s.len() - i,
{
    if !(0 <= i < s.len()) {
        s.len() as int
    } else if s[i] == '\n' {
        i
    } else {
        sp_find_nl(s, i + 1)
    }
}

pub proof fn lemma_find_nl_bounds(s: Seq<char>, i: int)
    requires
        0 <= i <= s.len(),
    ensures
        i <= sp_find_nl(s, i) <= s.len(),
        forall|k: int| i <= k < sp_find_nl(s, i) ==> s[k] != '\n',
        sp_find_nl(s, i) == s.len() || s[sp_find_nl(s, i)] == '\n',
    decreases s.len() - i,
{
    if i < s.len() && s[i] != '\n' {
        lemma_find_nl_bounds(s, i + 1);
    }
}

pub proof fn lemma_find_nl_exact(s: Seq<char>, i: int, j: int)
    requires
        0 <= i <= j <= s.len(),
        forall|k: int| i <= k < j ==> s[k] != '\n',
        j == s.len() || s[j] == '\n',
    ensures
        sp_find_nl(s, i) == j,
    decreases j - i,
{
    if i < j {
        lemma_find_nl_exact(s, i + 1, j);
    }
}

/// The text split at newlines; a final segment without its newline still
/// counts as a line.
pub open spec fn sp_lines(s: Seq<char>) -> Seq<Seq<char>>
    decreases s.len(),
{
    if s.len() == 0 {
        Seq::empty()
    } else {
        let j = sp_find_nl(s, 0);
        if j == s.len() {
            seq![s]
        } else {
            proof {
                lemma_find_nl_bounds(s, 0);
            }
            seq![s.take(j)] + sp_lines(s.skip(j + 1))
        }
    }
}

/// Decode each line, skipping the ones that hold no record.
pub open spec fn sp_decode_lines(ls: Seq<Seq<char>>) -> Seq<EventData>
    decreases ls.len(),
{
    if ls.len() == 0 {
        Seq::empty()
    } else {
        match sp_decode_event(ls[0]) {
            Some(e) => seq![e] + sp_decode_lines(ls.drop_first()),
            None => sp_decode_lines(ls.drop_first()),
        }
    }
}

/// The records the queue file holds, in append order.
pub open spec fn sp_replay(s: Seq<char>) -> Seq<EventData> {
    sp_decode_lines(sp_lines(s))
}

/// Queue text is whole lines: empty, or newline-terminated.
pub open spec fn queue_content_wf(s: Seq<char>) -> bool {
    s.len() == 0 || s[s.len() - 1] == '\n'
}

pub open spec fn events_view(es: Seq<Event>) -> Seq<EventData> {
    es.map_values(|e: Event| e@)
}

/// An encoded record holds no control character, in particular no newline.
pub proof fn lemma_encode_line_safe(e: EventData)
    requires
        event_wf(e),
    ensures
        line_safe(sp_encode_event(e)),
{
    reveal_event_keys();
    let p = event_pairs(e);
    assert forall|i: int| 0 <= i < p.len() implies field_wf((#[trigger] p[i]).0) && line_safe(
        p[i].1,
    ) by {
        crate::json::lemma_quote_raw_wf(e.slug);
        crate::json::lemma_quote_raw_wf(e.type_s);
        crate::json::lemma_quote_raw_wf(e.user_id);
        crate::json::lemma_quote_raw_wf(e.invocation_id);
        crate::json::lemma_quote_raw_wf(e.datetime);
    }
    crate::json::lemma_enc_obj_line_safe(p);
}

/// Appending one whole line appends one element to the split.
pub proof fn lemma_lines_append(s: Seq<char>, l: Seq<char>)
    requires
        queue_content_wf(s),
        line_safe(l),
    ensures
        sp_lines(s + l + seq!['\n']) == sp_lines(s).push(l),
    decreases s.len(),
{
    let t = s + l + seq!['\n'];
    assert forall|k: int| 0 <= k < l.len() implies l[k] != '\n' by {
        assert(!is_ctrl_char(l[k]));
    }
    if s.len() == 0 {
        assert(t =~= l + seq!['\n']);
        lemma_find_nl_exact(t, 0, l.len() as int);
        assert(sp_find_nl(t, 0) == l.len());
        assert(t.take(l.len() as int) =~= l);
        assert(t.skip(l.len() as int + 1) =~= Seq::<char>::empty());
        assert(sp_lines(Seq::<char>::empty()) == Seq::<Seq<char>>::empty());
        assert(sp_lines(t) =~= seq![l]);
        assert(sp_lines(s).push(l) =~= seq![l]);
    } else {
        let j = sp_find_nl(s, 0);
        lemma_find_nl_bounds(s, 0);
        assert(s[s.len() - 1] == '\n');
        assert(j < s.len());
        lemma_find_nl_exact(t, 0, j);
        assert(t.take(j) =~= s.take(j));
        assert(t.skip(j + 1) =~= s.skip(j + 1) + l + seq!['\n']);
        assert(queue_content_wf(s.skip(j + 1))) by {
            if s.skip(j + 1).len() > 0 {
                assert(s.skip(j + 1)[s.skip(j + 1).len() - 1] == s[s.len() - 1]);
            }
        }
        lemma_lines_append(s.skip(j + 1), l);
        assert(sp_lines(t) == seq![t.take(j)] + sp_lines(t.skip(j + 1)));
        assert(sp_lines(s) == seq![s.take(j)] + sp_lines(s.skip(j + 1)));
        assert(seq![s.take(j)] + sp_lines(s.skip(j + 1)).push(l) =~= (seq![s.take(j)] + sp_lines(
            s.skip(j + 1),
        )).push(l));
    }
}

pub proof fn lemma_decode_lines_snoc(ls: Seq<Seq<char>>, l: Seq<char>)
    ensures
        sp_decode_lines(ls.push(l)) == sp_decode_lines(ls) + (match sp_decode_event(l) {
            Some(e) => seq![e],
            None => Seq::<EventData>::empty(),
        }),
    decreases ls.len(),
{
    if ls.len() == 0 {
        assert(ls.push(l)[0] == l);
        assert(ls.push(l).drop_first() =~= Seq::<Seq<char>>::empty());
        assert(sp_decode_lines(Seq::<Seq<char>>::empty()) == Seq::<EventData>::empty());
        match sp_decode_event(l) {
            Some(e) => {
                assert(sp_decode_lines(ls.push(l)) =~= seq![e]);
                assert(sp_decode_lines(ls) + seq![e] =~= seq![e]);
            },
            None => {
                assert(sp_decode_lines(ls) + Seq::<EventData>::empty()
                    =~= Seq::<EventData>::empty());
            },
        }
    } else {
        assert(ls.push(l)[0] == ls[0]);
        assert(ls.push(l).drop_first() =~= ls.drop_first().push(l));
        lemma_decode_lines_snoc(ls.drop_first(), l);
        match sp_decode_event(ls[0]) {
            Some(e) => {
                assert(seq![e] + (sp_decode_lines(ls.drop_first()) + (match sp_decode_event(l) {
                    Some(e2) => seq![e2],
                    None => Seq::<EventData>::empty(),
                })) =~= (seq![e] + sp_decode_lines(ls.drop_first())) + (match sp_decode_event(l) {
                    Some(e2) => seq![e2],
                    None => Seq::<EventData>::empty(),
                }));
            },
            None => {},
        }
    }
}

/// Appending one well-formed record adds exactly that record to the replay.
pub proof fn lemma_record_replay(s: Seq<char>, e: EventData)
    requires
        queue_content_wf(s),
        event_wf(e),
    ensures
        sp_replay(s + sp_encode_event(e) + seq!['\n']) == sp_replay(s).push(e),
        queue_content_wf(s + sp_encode_event(e) + seq!['\n']),
{
    lemma_encode_line_safe(e);
    lemma_lines_append(s, sp_encode_event(e));
    lemma_decode_lines_snoc(sp_lines(s), sp_encode_event(e));
    lemma_event_round_trip(e);
    assert(sp_decode_lines(sp_lines(s)) + seq![e] =~= sp_decode_lines(sp_lines(s)).push(e));
    let t = s + sp_encode_event(e) + seq!['\n'];
    assert(t[t.len() - 1] == '\n');
}

/// The durable queue, modelled on the text its backing file holds.  The
/// host reads the file into `content` before the call and writes `content`
/// back after it; `None` stands for an absent file.
pub struct EventLog {
    pub content: Option<String>,
}

impl EventLog {
    /// The text on disk, an absent file reading as empty.
    pub open spec fn text(self) -> Seq<char> {
        match self.content {
            Some(c) => c@,
            None => Seq::empty(),
        }
    }

    pub open spec fn wf(self) -> bool {
        queue_content_wf(self.text())
    }

    pub fn new(content: Option<String>) -> (log: EventLog)
        ensures
            log.content == content,
    {
        EventLog { content }
    }

    /// Append one record as one line; the file is created when absent and
    /// never truncated.
    pub fn record_event(&mut self, event: &Event)
        requires
            event_wf(event@),
        ensures
            final(self).text() == old(self).text() + sp_encode_event(event@) + seq!['\n'],
            final(self).content is Some,
            old(self).wf() ==> final(self).wf(),
            old(self).wf() ==> sp_replay(final(self).text()) == sp_replay(old(self).text()).push(
                event@,
            ),
    {
        let line = encode_event(event);
        let mut s: String = match &self.content {
            Some(c) => c.clone(),
            None => String::new(),
        };
        s.append(line.as_str());
        s.append("\n");
        proof {
            reveal_strlit("\n");
            assert("\n"@ =~= seq!['\n']);
            if old(self).wf() {
                lemma_record_replay(old(self).text(), event@);
            }
        }
        self.content = Some(s);
    }

    /// All records currently on disk, in append order; lines that hold no
    /// record are skipped rather than failing the whole replay.
    pub fn get_events(&self) -> (r: Vec<Event>)
        ensures
            events_view(r@) == sp_replay(self.text()),
    {
        let mut out: Vec<Event> = Vec::new();
        let cs: Vec<char> = match &self.content {
            Some(c) => chars_of(c.as_str()),
            None => Vec::new(),
        };
        let n = cs.len();
        let mut cur: usize = 0;
        assert(cs@.skip(0) =~= cs@);
        assert(events_view(out@) =~= Seq::<EventData>::empty());
        while cur < n
            invariant
                0 <= cur <= n,
                n == cs@.len(),
                cur < n ==> cs@.skip(cur as int).len() > 0,
                events_view(out@) + sp_decode_lines(sp_lines(cs@.skip(cur as int))) == sp_replay(
                    cs@,
                ),
            decreases n - cur,
        {
            let ghost tail = cs@.skip(cur as int);
            // find the end of this line
            let mut j: usize = cur;
            while j < n && cs[j] != '\n'
                invariant
                    cur <= j <= n,
                    n == cs@.len(),
                    forall|k: int| cur <= k < j ==> cs@[k] != '\n',
                decreases n - j,
            {
                j += 1;
            }
            proof {
                lemma_find_nl_exact(cs@, cur as int, j as int);
                assert forall|k: int| 0 <= k < j - cur implies tail[k] != '\n' by {
                    assert(tail[k] == cs@[cur + k]);
                }
                lemma_find_nl_exact(tail, 0, j - cur);
            }
            let line = copy_range(&cs, cur, j);
            assert(line@ =~= tail.take(j - cur));
            let line_s = string_from_chars(&line);
            let dec = decode_event(line_s.as_str());
            let ghost prev = out@;
            match dec {
                Some(ev) => {
                    out.push(ev);
                    assert(events_view(out@) =~= events_view(prev) + seq![ev@]);
                },
                None => {},
            }
            proof {
                if j == n {
                    assert(tail.take(j - cur) =~= tail);
                    assert(sp_lines(tail) == seq![tail]);
                    assert(seq![tail][0] == tail);
                    assert(seq![tail].drop_first() =~= Seq::<Seq<char>>::empty());
                    assert(cs@.skip(n as int) =~= Seq::<char>::empty());
                    assert(sp_decode_lines(Seq::<Seq<char>>::empty()) == Seq::<EventData>::empty());
                    match sp_decode_event(tail) {
                        Some(ed) => {
                            assert(sp_decode_lines(sp_lines(tail)) =~= seq![ed]);
                            assert(events_view(prev) + seq![ed] =~= events_view(out@));
                        },
                        None => {
                            assert(sp_decode_lines(sp_lines(tail))
                                =~= Seq::<EventData>::empty());
                            assert(events_view(prev) + Seq::<EventData>::empty() =~= events_view(
                                out@,
                            ));
                        },
                    }
                } else {
                    assert(sp_lines(tail) == seq![tail.take(j - cur)] + sp_lines(
                        tail.skip(j - cur + 1),
                    ));
                    assert(tail.skip(j - cur + 1) =~= cs@.skip(j + 1));
                    let ll = seq![tail.take(j - cur)] + sp_lines(cs@.skip(j + 1));
                    assert(ll[0] == tail.take(j - cur));
                    assert(ll.drop_first() =~= sp_lines(cs@.skip(j + 1)));
                    match sp_decode_event(line@) {
                        Some(ed) => {
                            assert(sp_decode_lines(ll) == seq![ed] + sp_decode_lines(
                                sp_lines(cs@.skip(j + 1)),
                            ));
                            assert(events_view(prev) + (seq![ed] + sp_decode_lines(
                                sp_lines(cs@.skip(j + 1)),
                            )) =~= events_view(out@) + sp_decode_lines(sp_lines(cs@.skip(j + 1))));
                        },
                        None => {
                            assert(sp_decode_lines(ll) == sp_decode_lines(
                                sp_lines(cs@.skip(j + 1)),
                            ));
                        },
                    }
                }
            }
            if j == n {
                cur = n;
            } else {
                cur = j + 1;
            }
        }
        assert(cs@.skip(n as int) =~= Seq::<char>::empty());
        assert(events_view(out@) + Seq::<EventData>::empty() =~= events_view(out@));
        out
    }

    /// Delete the backing file entirely.
    pub fn clear(&mut self)
        ensures
            final(self).content is None,
    {
        self.content = None;
    }
}

} // verus!
