//! Configuration resolution and the consent gate.
//!
//! Every tunable resolves by the same precedence: an environment override
//! wins, then a value the host set in memory, then (for the user id) the
//! persisted user settings, then a freshly generated default.  The host
//! reads the environment and the settings file and hands their contents in
//! as plain values; the decisions here are pure and verified.
use vstd::prelude::*;

use crate::events::Event;
use crate::events::EventData;
use crate::events::sp_encode_event_pretty;
use crate::events::sp_unquote;
use crate::events::encode_event_pretty;
use crate::json::chars_eq;
use crate::json::chars_of;
use crate::json::copy_range;
use crate::json::enc_obj;
use crate::json::encode_obj;
use crate::json::field_wf;
use crate::json::is_ctrl_char;
use crate::json::is_ws_char;
use crate::json::lookup;
use crate::json::Member;
use crate::json::member_view;
use crate::json::members_view;
use crate::json::parse_obj_chars;
use crate::json::quote;
use crate::json::raw_value_wf;
use crate::json::RawMember;
use crate::json::set_pair;
use crate::json::skip_ws;
use crate::json::sp_parse_obj;
use crate::json::string_from_chars;
use crate::json::trim_end;
use crate::json::trim_end_ws;

verus! {

pub const DEFAULT_REQUEST_PROMPT: &'static str = "\nTo help improve the quality of our tools, we track basic\nanonymized usage information so we can learn what features\nare used and how people use them.\n\nHere's an example of an event we would collect:\n{event_data}\n\nYour settings will be saved here and can be changed at any time:\n{settings_path}\n\nCan we collect anonymous usage data from your installation?\n";

pub const DEFAULT_ERROR_PROMPT: &'static str = "\nUh oh, there was an error! Reporting these issues back to us helps improve our tools.\n\nHere's the data we would collect:\n{event_data}\n\nDo you want to anonymously report this?\n";

// ---------------------------------------------------------------------------
// environment precedence
// ---------------------------------------------------------------------------

/// What the host read from the process environment before the call.  Each
/// text field holds the raw contents of one `CLS_`-prefixed variable, or
/// `None` when it is unset; `ci_present` says whether a `CI` variable
/// exists at all, its value ignored.
pub struct EnvSnapshot {
    pub project_key: Option<String>,
    pub debug: Option<String>,
    pub user_id: Option<String>,
    pub invocation_id: Option<String>,
    pub api_url: Option<String>,
    pub ci_present: bool,
}

pub open spec fn opt_str_view(v: Option<&String>) -> Option<Seq<char>> {
    match v {
        Some(s) => Some(s@),
        None => None,
    }
}

pub open spec fn opt_string_view(v: Option<String>) -> Option<Seq<char>> {
    match v {
        Some(s) => Some(s@),
        None => None,
    }
}

/// An environment variable counts only when set and nonempty.
pub open spec fn env_setting(v: Option<Seq<char>>) -> Option<Seq<char>> {
    match v {
        Some(s) => if s.len() > 0 {
            Some(s)
        } else {
            None
        },
        None => None,
    }
}

/// Boolean reading of environment text: `"false"` and `"0"` are falsy,
/// any other nonempty text is truthy.
pub open spec fn env_bool_true(s: Seq<char>) -> bool {
    s != "false"@ && s != "0"@
}

/// An environment override wins; otherwise the in-memory value stands.
pub open spec fn sp_resolved(env: Option<Seq<char>>, cur: Seq<char>) -> Seq<char> {
    match env_setting(env) {
        Some(e) => e,
        None => cur,
    }
}

pub open spec fn sp_resolved_debug(env: Option<Seq<char>>, cur: bool) -> bool {
    match env_setting(env) {
        Some(e) => env_bool_true(e),
        None => cur,
    }
}

/// Where the user id comes from: environment, explicit set, stored
/// settings — or nowhere, in which case a fresh one is generated.
pub open spec fn sp_user_id_source(
    env: Option<Seq<char>>,
    explicit: Seq<char>,
    stored: Option<Seq<char>>,
) -> Option<Seq<char>> {
    match env_setting(env) {
        Some(e) => Some(e),
        None => if explicit.len() > 0 {
            Some(explicit)
        } else {
            stored
        },
    }
}

pub open spec fn sp_invocation_id_source(
    env: Option<Seq<char>>,
    explicit: Seq<char>,
) -> Option<Seq<char>> {
    match env_setting(env) {
        Some(e) => Some(e),
        None => if explicit.len() > 0 {
            Some(explicit)
        } else {
            None
        },
    }
}

/// The host's explicit setting is authoritative; else the presence of a
/// `CI` variable decides.
pub open spec fn sp_is_ci(explicit: Option<bool>, ci_present: bool) -> bool {
    match explicit {
        Some(b) => b,
        None => ci_present,
    }
}

/// The text of a freshly generated identifier: 36 characters of lowercase
/// hex digits and hyphens.
pub open spec fn uuid_text(s: Seq<char>) -> bool {
    s.len() == 36 && forall|i: int|
        0 <= i < s.len() ==> (48 <= (#[trigger] s[i]) as u32 <= 57 || 97 <= s[i] as u32 <= 102
            || s[i] as u32 == 45)
}

/// Relies on uuid's `new_v4` and its hyphenated `Display` rendering: 36
/// characters of lowercase hex digits and hyphens.
#[verifier::external_body]
fn fresh_uuid() -> (r: String)
    ensures
        uuid_text(r@),
{
    uuid::Uuid::new_v4().to_string()
}

/// Relies on dirs' `config_dir`: the platform's per-user configuration
/// directory, when it has one and its path is text.
#[verifier::external_body]
fn os_config_dir() -> (r: Option<String>) {
    dirs::config_dir().and_then(|p| p.to_str().map(|s| s.to_string()))
}

/// Relies on dirs' `cache_dir`: the platform's per-user cache directory,
/// when it has one and its path is text.
#[verifier::external_body]
fn os_cache_dir() -> (r: Option<String>) {
    dirs::cache_dir().and_then(|p| p.to_str().map(|s| s.to_string()))
}

pub proof fn lemma_uuid_text_field_wf(s: Seq<char>)
    requires
        uuid_text(s),
    ensures
        field_wf(s),
{
    assert forall|i: int| 0 <= i < s.len() implies !is_ctrl_char(s[i]) || s[i] == '\n' || s[i]
        == '\t' || s[i] == '\r' by {
        assert(s[i] as u32 >= 45);
    }
}

// ---------------------------------------------------------------------------
// the settings object
// ---------------------------------------------------------------------------

/// The mathematical content of the in-memory settings.
pub struct SettingsData {
    pub project_slug: Seq<char>,
    pub instance_id: Seq<char>,
    pub request_permission_prompt: Seq<char>,
    pub error_prompt: Seq<char>,
    pub ci_tracking_enabled: bool,
    pub version: Seq<char>,
    pub is_ci: Option<bool>,
    pub project_key: Seq<char>,
    pub debug: bool,
    pub user_id: Seq<char>,
    pub invocation_id: Seq<char>,
}

/// The in-memory configuration, constructed once by the host and passed
/// into every operation.  The host mutates it only through the setters.
pub struct Settings {
    pub project_slug: String,
    pub instance_id: String,
    pub request_permission_prompt: String,
    pub error_prompt: String,
    pub ci_tracking_enabled: bool,
    pub version: String,
    pub is_ci: Option<bool>,
    pub project_key: String,
    pub debug: bool,
    pub user_id: String,
    pub invocation_id: String,
}

impl View for Settings {
    type V = SettingsData;

    open spec fn view(&self) -> SettingsData {
        SettingsData {
            project_slug: self.project_slug@,
            instance_id: self.instance_id@,
            request_permission_prompt: self.request_permission_prompt@,
            error_prompt: self.error_prompt@,
            ci_tracking_enabled: self.ci_tracking_enabled,
            version: self.version@,
            is_ci: self.is_ci,
            project_key: self.project_key@,
            debug: self.debug,
            user_id: self.user_id@,
            invocation_id: self.invocation_id@,
        }
    }
}

/// The name of the per-instance directory under the configuration and
/// cache roots: the optional slug, the token `cls`, the optional instance
/// id, joined with underscores.
pub open spec fn sp_instance_dirname(slug: Seq<char>, id: Seq<char>) -> Seq<char> {
    (if slug.len() > 0 {
        slug + "_"@
    } else {
        Seq::empty()
    }) + "cls"@ + (if id.len() > 0 {
        "_"@ + id
    } else {
        Seq::empty()
    })
}

impl Settings {
    pub fn new() -> (s: Settings)
        ensures
            s@.project_slug.len() == 0,
            s@.instance_id.len() == 0,
            s@.request_permission_prompt == DEFAULT_REQUEST_PROMPT@,
            s@.error_prompt == DEFAULT_ERROR_PROMPT@,
            s@.ci_tracking_enabled == false,
            s@.version.len() == 0,
            s@.is_ci is None,
            s@.project_key.len() == 0,
            s@.debug == false,
            s@.user_id.len() == 0,
            s@.invocation_id.len() == 0,
    {
        proof {
            reveal_strlit("");
        }
        Settings {
            project_slug: String::new(),
            instance_id: String::new(),
            request_permission_prompt: DEFAULT_REQUEST_PROMPT.to_owned(),
            error_prompt: DEFAULT_ERROR_PROMPT.to_owned(),
            ci_tracking_enabled: false,
            version: String::new(),
            is_ci: None,
            project_key: String::new(),
            debug: false,
            user_id: String::new(),
            invocation_id: String::new(),
        }
    }

    pub fn set_project_key(&mut self, key: &str)
        ensures
            final(self)@ == (SettingsData { project_key: key@, ..old(self)@ }),
    {
        self.project_key = key.to_owned();
    }

    pub fn get_project_key(&self, env_val: Option<&String>) -> (r: String)
        ensures
            r@ == sp_resolved(opt_str_view(env_val), self@.project_key),
    {
        match env_val {
            Some(v) if !v.as_str().is_empty() => v.clone(),
            _ => self.project_key.clone(),
        }
    }

    pub fn set_debug(&mut self, debug: bool)
        ensures
            final(self)@ == (SettingsData { debug, ..old(self)@ }),
    {
        self.debug = debug;
    }

    pub fn get_debug(&self, env_val: Option<&String>) -> (r: bool)
        ensures
            r == sp_resolved_debug(opt_str_view(env_val), self@.debug),
    {
        match env_val {
            Some(v) if !v.as_str().is_empty() => {
                let falsy = chars_eq(&chars_of(v.as_str()), &chars_of("false")) || chars_eq(
                    &chars_of(v.as_str()),
                    &chars_of("0"),
                );
                !falsy
            },
            _ => self.debug,
        }
    }

    pub fn set_user_id(&mut self, user_id: &str)
        ensures
            final(self)@ == (SettingsData { user_id: user_id@, ..old(self)@ }),
    {
        self.user_id = user_id.to_owned();
    }

    /// Resolve the user id: environment, explicit value, stored settings,
    /// else a fresh identifier.
    pub fn get_user_id(&self, env_val: Option<&String>, stored: Option<&String>) -> (r: String)
        ensures
            match sp_user_id_source(opt_str_view(env_val), self@.user_id, opt_str_view(stored)) {
                Some(v) => r@ == v,
                None => uuid_text(r@),
            },
    {
        match env_val {
            Some(v) if !v.as_str().is_empty() => v.clone(),
            _ => {
                if !self.user_id.as_str().is_empty() {
                    self.user_id.clone()
                } else {
                    match stored {
                        Some(v) => v.clone(),
                        None => fresh_uuid(),
                    }
                }
            },
        }
    }

    pub fn set_invocation_id(&mut self, invocation_id: &str)
        ensures
            final(self)@ == (SettingsData { invocation_id: invocation_id@, ..old(self)@ }),
    {
        self.invocation_id = invocation_id.to_owned();
    }

    /// Resolve the invocation id: environment, explicit value, else a
    /// fresh identifier.
    pub fn get_invocation_id(&self, env_val: Option<&String>) -> (r: String)
        ensures
            match sp_invocation_id_source(opt_str_view(env_val), self@.invocation_id) {
                Some(v) => r@ == v,
                None => uuid_text(r@),
            },
    {
        match env_val {
            Some(v) if !v.as_str().is_empty() => v.clone(),
            _ => {
                if !self.invocation_id.as_str().is_empty() {
                    self.invocation_id.clone()
                } else {
                    fresh_uuid()
                }
            },
        }
    }

    pub fn set_is_ci(&mut self, is_ci: bool)
        ensures
            final(self)@ == (SettingsData { is_ci: Some(is_ci), ..old(self)@ }),
    {
        self.is_ci = Some(is_ci);
    }

    /// The explicit setting is host-authoritative; else a `CI` variable's
    /// presence decides.
    pub fn get_is_ci(&self, ci_present: bool) -> (r: bool)
        ensures
            r == sp_is_ci(self@.is_ci, ci_present),
    {
        match self.is_ci {
            Some(b) => b,
            None => ci_present,
        }
    }

    pub fn get_instance_dirname(&self) -> (r: String)
        ensures
            r@ == sp_instance_dirname(self@.project_slug, self@.instance_id),
    {
        let mut out = String::new();
        if !self.project_slug.as_str().is_empty() {
            out.append(self.project_slug.as_str());
            out.append("_");
        }
        out.append("cls");
        if !self.instance_id.as_str().is_empty() {
            out.append("_");
            out.append(self.instance_id.as_str());
        }
        proof {
            assert(out@ =~= sp_instance_dirname(self@.project_slug, self@.instance_id));
        }
        out
    }

    /// The per-instance configuration directory, when the platform has a
    /// configuration root.
    pub fn get_config_dir(&self) -> (r: Option<String>)
        ensures
            r matches Some(p) ==> exists|b: Seq<char>|
                p@ == b + seq!['/'] + sp_instance_dirname(self@.project_slug, self@.instance_id),
    {
        match os_config_dir() {
            None => None,
            Some(base) => {
                let mut p = base;
                p.append("/");
                p.append(self.get_instance_dirname().as_str());
                proof {
                    reveal_strlit("/");
                    assert("/"@ =~= seq!['/']);
                }
                Some(p)
            },
        }
    }

    /// The per-instance cache directory, when the platform has a cache
    /// root.
    pub fn get_cache_dir(&self) -> (r: Option<String>)
        ensures
            r matches Some(p) ==> exists|b: Seq<char>|
                p@ == b + seq!['/'] + sp_instance_dirname(self@.project_slug, self@.instance_id),
    {
        match os_cache_dir() {
            None => None,
            Some(base) => {
                let mut p = base;
                p.append("/");
                p.append(self.get_instance_dirname().as_str());
                proof {
                    reveal_strlit("/");
                    assert("/"@ =~= seq!['/']);
                }
                Some(p)
            },
        }
    }

    /// Where the persisted user settings live: `settings.json` in the
    /// per-instance configuration directory.
    pub fn get_user_settings_path(&self) -> (r: Option<String>)
        ensures
            r matches Some(p) ==> exists|b: Seq<char>|
                p@ == b + seq!['/'] + sp_instance_dirname(self@.project_slug, self@.instance_id)
                    + "/settings.json"@,
    {
        match self.get_config_dir() {
            None => None,
            Some(dir) => {
                let mut p = dir;
                p.append("/settings.json");
                Some(p)
            },
        }
    }
}

// ---------------------------------------------------------------------------
// text replacement, for rendering prompts
// ---------------------------------------------------------------------------

/// Every occurrence of `pat` replaced by `sub`, scanning left to right.
pub open spec fn sp_replace(s: Seq<char>, pat: Seq<char>, sub: Seq<char>) -> Seq<char>
    decreases s.len(),
{
    if pat.len() == 0 || s.len() < pat.len() {
        s
    } else if s.take(pat.len() as int) == pat {
        sub + sp_replace(s.skip(pat.len() as int), pat, sub)
    } else {
        seq![s[0]] + sp_replace(s.drop_first(), pat, sub)
    }
}

pub open spec fn trim_start_ws(s: Seq<char>) -> Seq<char>
    decreases s.len(),
{
    if s.len() > 0 && is_ws_char(s[0]) {
        trim_start_ws(s.drop_first())
    } else {
        s
    }
}

/// The text with leading and trailing blanks removed.
pub open spec fn sp_trim(s: Seq<char>) -> Seq<char> {
    trim_end_ws(trim_start_ws(s))
}

proof fn lemma_trim_start_skip(s: Seq<char>, i: int)
    requires
        0 <= i <= s.len(),
        forall|k: int| 0 <= k < i ==> is_ws_char(s[k]),
        i == s.len() || !is_ws_char(s[i]),
    ensures
        trim_start_ws(s) == s.skip(i),
    decreases i,
{
    if i == 0 {
        assert(s.skip(0) =~= s);
    } else {
        assert(is_ws_char(s[0]));
        assert(s.drop_first() =~= s.skip(1));
        assert forall|k: int| 0 <= k < i - 1 implies is_ws_char(s.skip(1)[k]) by {
            assert(s.skip(1)[k] == s[k + 1]);
        }
        lemma_trim_start_skip(s.skip(1), i - 1);
        assert(s.skip(1).skip(i - 1) =~= s.skip(i));
    }
}

fn starts_with_at(s: &Vec<char>, i: usize, pat: &Vec<char>) -> (r: bool)
    requires
        i <= s@.len(),
        i + pat@.len() <= s@.len(),
    ensures
        r == (s@.subrange(i as int, i + pat@.len()) == pat@),
{
    let n = s.len();
    let m = pat.len();
    let mut k: usize = 0;
    while k < m
        invariant
            0 <= k <= m,
            n == s@.len(),
            m == pat@.len(),
            i + m <= n,
            forall|t: int| 0 <= t < k ==> s@[i + t] == pat@[t],
        decreases m - k,
    {
        if s[i + k] != pat[k] {
            assert(s@.subrange(i as int, i + pat@.len())[k as int] == s@[i + k]);
            return false;
        }
        k += 1;
    }
    assert(s@.subrange(i as int, i + pat@.len()) =~= pat@);
    true
}

/// Replace every occurrence of a nonempty pattern.
pub fn replace_all(s: &Vec<char>, pat: &Vec<char>, sub: &Vec<char>) -> (r: Vec<char>)
    requires
        pat@.len() > 0,
    ensures
        r@ == sp_replace(s@, pat@, sub@),
{
    let n = s.len();
    let m = pat.len();
    let mut out: Vec<char> = Vec::new();
    let mut i: usize = 0;
    assert(s@.skip(0) =~= s@);
    while m <= n - i
        invariant
            0 <= i <= n,
            n == s@.len(),
            m == pat@.len(),
            m > 0,
            sp_replace(s@, pat@, sub@) == out@ + sp_replace(s@.skip(i as int), pat@, sub@),
        decreases n - i,
    {
        let ghost tail = s@.skip(i as int);
        assert(tail.len() == n - i >= m);
        if starts_with_at(s, i, pat) {
            assert(tail.take(m as int) =~= s@.subrange(i as int, i + m as int));
            let ghost pre = out@;
            crate::json::push_all(&mut out, sub);
            proof {
                assert(tail.skip(m as int) =~= s@.skip(i + m));
                assert(sp_replace(tail, pat@, sub@) == sub@ + sp_replace(
                    s@.skip(i + m),
                    pat@,
                    sub@,
                ));
                assert(pre + (sub@ + sp_replace(s@.skip(i + m), pat@, sub@)) =~= out@ + sp_replace(
                    s@.skip(i + m),
                    pat@,
                    sub@,
                ));
            }
            i += m;
        } else {
            assert(tail.take(m as int) =~= s@.subrange(i as int, i + m as int));
            let ghost pre = out@;
            out.push(s[i]);
            proof {
                assert(tail[0] == s@[i as int]);
                assert(tail.drop_first() =~= s@.skip(i + 1));
                assert(sp_replace(tail, pat@, sub@) == seq![s@[i as int]] + sp_replace(
                    s@.skip(i + 1),
                    pat@,
                    sub@,
                ));
                assert(pre + (seq![s@[i as int]] + sp_replace(s@.skip(i + 1), pat@, sub@))
                    =~= out@ + sp_replace(s@.skip(i + 1), pat@, sub@));
            }
            i += 1;
        }
    }
    let ghost tail = s@.skip(i as int);
    assert(tail.len() < m);
    assert(sp_replace(tail, pat@, sub@) == tail);
    let rest = copy_range(s, i, n);
    assert(rest@ =~= tail);
    let ghost pre = out@;
    crate::json::push_all(&mut out, &rest);
    assert(out@ =~= pre + tail);
    out
}

/// The text with leading and trailing blanks removed.
pub fn trim_chars(s: &Vec<char>) -> (r: Vec<char>)
    ensures
        r@ == sp_trim(s@),
{
    let j = skip_ws(s, 0);
    proof {
        crate::json::lemma_skip_ws_bounds(s@, 0);
        lemma_trim_start_skip(s@, j as int);
    }
    let rest = copy_range(s, j, s.len());
    assert(rest@ =~= s@.skip(j as int));
    trim_end(rest)
}

// ---------------------------------------------------------------------------
// the persisted user settings
// ---------------------------------------------------------------------------

/// The store read from the settings file: an absent or unreadable file is
/// an empty object, never an error.
pub open spec fn sp_parse_store(t: Option<Seq<char>>) -> Seq<RawMember> {
    match t {
        None => Seq::empty(),
        Some(s) => match sp_parse_obj(s) {
            Some(p) => p,
            None => Seq::empty(),
        },
    }
}

pub open spec fn sp_store_has(p: Seq<RawMember>, k: Seq<char>) -> bool {
    lookup(p, k) is Some
}

/// The stored user id, when the member holds a string.
pub open spec fn sp_store_user_id(p: Seq<RawMember>) -> Option<Seq<char>> {
    match lookup(p, "user_id"@) {
        None => None,
        Some(raw) => sp_unquote(raw),
    }
}

/// The stored consent decision, when the member holds a boolean.
pub open spec fn sp_store_tracking(p: Seq<RawMember>) -> Option<bool> {
    match lookup(p, "tracking_enabled"@) {
        None => None,
        Some(raw) => if raw == "true"@ {
            Some(true)
        } else if raw == "false"@ {
            Some(false)
        } else {
            None
        },
    }
}

/// The persisted user settings, held as parsed members so that members
/// this crate does not know survive a read-merge-write unchanged.
pub struct UserStore {
    pub pairs: Vec<Member>,
}

impl View for UserStore {
    type V = Seq<RawMember>;

    open spec fn view(&self) -> Seq<RawMember> {
        members_view(self.pairs@)
    }
}

fn member_clone(m: &Member) -> (r: Member)
    ensures
        member_view(r) == member_view(*m),
{
    let key = copy_range(&m.key, 0, m.key.len());
    let value = copy_range(&m.value, 0, m.value.len());
    assert(key@ =~= m.key@);
    assert(value@ =~= m.value@);
    Member { key, value }
}

impl UserStore {
    /// Read the store from the settings file's text.
    pub fn parse(text: Option<&String>) -> (s: UserStore)
        ensures
            s@ == sp_parse_store(opt_str_view(text)),
    {
        match text {
            None => {
                let s = UserStore { pairs: Vec::new() };
                assert(s@ =~= Seq::<RawMember>::empty());
                s
            },
            Some(t) => {
                let cs = chars_of(t.as_str());
                match parse_obj_chars(&cs) {
                    Some(ms) => UserStore { pairs: ms },
                    None => {
                        let s = UserStore { pairs: Vec::new() };
                        assert(s@ =~= Seq::<RawMember>::empty());
                        s
                    },
                }
            },
        }
    }

    pub fn has(&self, key: &str) -> (r: bool)
        ensures
            r == sp_store_has(self@, key@),
    {
        match crate::events::find_value(&self.pairs, &chars_of(key)) {
            Some(_) => true,
            None => false,
        }
    }

    pub fn get_user_id(&self) -> (r: Option<String>)
        ensures
            match r {
                Some(v) => sp_store_user_id(self@) == Some(v@),
                None => sp_store_user_id(self@) is None,
            },
    {
        match crate::events::find_value(&self.pairs, &chars_of("user_id")) {
            None => None,
            Some(raw) => match crate::events::unquote(&raw) {
                None => None,
                Some(t) => Some(string_from_chars(&t)),
            },
        }
    }

    pub fn get_tracking(&self) -> (r: Option<bool>)
        ensures
            r == sp_store_tracking(self@),
    {
        match crate::events::find_value(&self.pairs, &chars_of("tracking_enabled")) {
            None => None,
            Some(raw) => {
                if chars_eq(&raw, &chars_of("true")) {
                    Some(true)
                } else if chars_eq(&raw, &chars_of("false")) {
                    Some(false)
                } else {
                    None
                }
            },
        }
    }

    /// Write one member, replacing the first of the same name or appending;
    /// every other member is kept as it stands.
    pub fn set(&mut self, key: &str, value_raw: &Vec<char>)
        ensures
            final(self)@ == set_pair(old(self)@, key@, value_raw@),
    {
        let ghost full = members_view(self.pairs@);
        let kc = chars_of(key);
        let n = self.pairs.len();
        let mut out: Vec<Member> = Vec::new();
        let mut replaced: bool = false;
        let mut i: usize = 0;
        assert(full.skip(0) =~= full);
        while i < n
            invariant
                0 <= i <= n,
                n == self.pairs@.len(),
                full == members_view(self.pairs@),
                kc@ == key@,
                set_pair(full, key@, value_raw@) == members_view(out@) + (if replaced {
                    full.skip(i as int)
                } else {
                    set_pair(full.skip(i as int), key@, value_raw@)
                }),
            decreases n - i,
        {
            let ghost tail = full.skip(i as int);
            proof {
                assert(tail[0] == full[i as int]);
                assert(full[i as int] == member_view(self.pairs@[i as int]));
                assert(tail.drop_first() =~= full.skip(i + 1));
            }
            let ghost pre = out@;
            if !replaced && chars_eq(&self.pairs[i].key, &kc) {
                let value = copy_range(value_raw, 0, value_raw.len());
                assert(value@ =~= value_raw@);
                out.push(Member { key: kc.clone(), value });
                replaced = true;
                proof {
                    assert(kc@ =~= key@);
                    assert(set_pair(tail, key@, value_raw@) == seq![(key@, value_raw@)]
                        + tail.drop_first());
                    assert(members_view(out@) =~= members_view(pre) + seq![(key@, value_raw@)]);
                    assert(members_view(pre) + (seq![(key@, value_raw@)] + full.skip(i + 1))
                        =~= members_view(out@) + full.skip(i + 1));
                }
            } else {
                out.push(member_clone(&self.pairs[i]));
                proof {
                    assert(members_view(out@) =~= members_view(pre) + seq![tail[0]]);
                    if replaced {
                        assert(members_view(pre) + tail =~= members_view(out@) + full.skip(i + 1));
                    } else {
                        assert(tail[0].0 != key@);
                        assert(set_pair(tail, key@, value_raw@) == seq![tail[0]] + set_pair(
                            tail.drop_first(),
                            key@,
                            value_raw@,
                        ));
                        assert(members_view(pre) + (seq![tail[0]] + set_pair(
                            full.skip(i + 1),
                            key@,
                            value_raw@,
                        )) =~= members_view(out@) + set_pair(full.skip(i + 1), key@, value_raw@));
                    }
                }
            }
            i += 1;
        }
        assert(full.skip(n as int) =~= Seq::<RawMember>::empty());
        if !replaced {
            let value = copy_range(value_raw, 0, value_raw.len());
            assert(value@ =~= value_raw@);
            let ghost pre = out@;
            out.push(Member { key: kc, value });
            proof {
                assert(set_pair(Seq::<RawMember>::empty(), key@, value_raw@) == seq![
                    (key@, value_raw@),
                ]);
                assert(members_view(out@) =~= members_view(pre) + seq![(key@, value_raw@)]);
            }
        } else {
            assert(members_view(out@) + Seq::<RawMember>::empty() =~= members_view(out@));
        }
        self.pairs = out;
    }

    /// The store as pretty-printed JSON, ready for the settings file.
    pub fn encode(&self) -> (r: String)
        ensures
            r@ == enc_obj(self@, true),
    {
        let out = encode_obj(&self.pairs, true);
        string_from_chars(&out)
    }
}

// ---------------------------------------------------------------------------
// the consent gate
// ---------------------------------------------------------------------------

/// What the consent gate decides from its inputs alone: a final permit, or which
/// prompt to raise.
pub enum ConsentPlan {
    Decided { permit: bool },
    AskGeneral,
    AskError,
}

/// The consent table.  CI short-circuits to the configured flag; an error
/// event re-prompts every time or is denied without a terminal; a stored
/// decision answers without a prompt; no terminal denies without
/// persisting; otherwise the user is asked.
pub open spec fn sp_consent_plan(
    is_ci: bool,
    ci_tracking: bool,
    is_error: bool,
    stored_tracking: Option<bool>,
    interactive: bool,
) -> ConsentPlan {
    if is_ci {
        ConsentPlan::Decided { permit: ci_tracking }
    } else if is_error {
        if interactive {
            ConsentPlan::AskError
        } else {
            ConsentPlan::Decided { permit: false }
        }
    } else if stored_tracking is Some {
        ConsentPlan::Decided { permit: stored_tracking.unwrap() }
    } else if !interactive {
        ConsentPlan::Decided { permit: false }
    } else {
        ConsentPlan::AskGeneral
    }
}

/// What one prompt answer means: the permit, and the decision to persist.
/// A failed prompt is an implicit "do not track"; an error-path answer is
/// never persisted.
pub open spec fn sp_prompt_outcome(error_path: bool, answer: Option<bool>) -> (bool, Option<
    bool,
>) {
    (
        match answer {
            Some(b) => b,
            None => false,
        },
        if error_path {
            None
        } else {
            answer
        },
    )
}

/// The general prompt rendered: template trimmed, `{event_data}` replaced
/// by the pretty-printed record, `{settings_path}` by the settings file
/// path.
pub open spec fn sp_render_general(tpl: Seq<char>, e: EventData, path: Seq<char>) -> Seq<char> {
    sp_replace(
        sp_replace(sp_trim(tpl), "{event_data}"@, sp_encode_event_pretty(e)),
        "{settings_path}"@,
        path,
    )
}

/// The error prompt rendered: template trimmed, `{event_data}` replaced.
pub open spec fn sp_render_error(tpl: Seq<char>, e: EventData) -> Seq<char> {
    sp_replace(sp_trim(tpl), "{event_data}"@, sp_encode_event_pretty(e))
}

/// What the consent gate asks of the host: a settled permit, or a prompt to raise
/// whose answer goes back through `sp_prompt_outcome`.
pub enum ConsentQuery {
    Decided { permit: bool },
    Prompt { error_path: bool, text: String },
}

impl Settings {
    /// Evaluate the consent table for one event.  The host passes the
    /// stored decision, whether an interactive terminal is attached, and
    /// whether a `CI` variable is present; when a prompt comes back it
    /// asks the user and settles through `sp_prompt_outcome`.
    pub fn should_track_event(
        &self,
        event: &Event,
        stored_tracking: Option<bool>,
        interactive: bool,
        ci_present: bool,
        settings_path: &str,
    ) -> (r: ConsentQuery)
        ensures
            match sp_consent_plan(
                sp_is_ci(self@.is_ci, ci_present),
                self@.ci_tracking_enabled,
                event@.type_s == "error"@,
                stored_tracking,
                interactive,
            ) {
                ConsentPlan::Decided { permit } => r == (ConsentQuery::Decided { permit }),
                ConsentPlan::AskGeneral => (r matches ConsentQuery::Prompt { error_path, text }
                    && error_path == false && text@ == sp_render_general(
                    self@.request_permission_prompt,
                    event@,
                    settings_path@,
                )),
                ConsentPlan::AskError => (r matches ConsentQuery::Prompt { error_path, text }
                    && error_path == true && text@ == sp_render_error(
                    self@.error_prompt,
                    event@,
                )),
            },
    {
        if self.get_is_ci(ci_present) {
            return ConsentQuery::Decided { permit: self.ci_tracking_enabled };
        }
        let is_error = chars_eq(&chars_of(event.type_s.as_str()), &chars_of("error"));
        if is_error {
            if !interactive {
                return ConsentQuery::Decided { permit: false };
            }
            let text = self.render_error_prompt(event);
            return ConsentQuery::Prompt { error_path: true, text };
        }
        match stored_tracking {
            Some(b) => ConsentQuery::Decided { permit: b },
            None => {
                if !interactive {
                    ConsentQuery::Decided { permit: false }
                } else {
                    let text = self.render_general_prompt(event, settings_path);
                    ConsentQuery::Prompt { error_path: false, text }
                }
            },
        }
    }

    fn render_general_prompt(&self, event: &Event, settings_path: &str) -> (r: String)
        ensures
            r@ == sp_render_general(self@.request_permission_prompt, event@, settings_path@),
    {
        proof {
            reveal_strlit("{event_data}");
            reveal_strlit("{settings_path}");
        }
        let t = trim_chars(&chars_of(self.request_permission_prompt.as_str()));
        let pretty = encode_event_pretty(event);
        let r1 = replace_all(&t, &chars_of("{event_data}"), &chars_of(pretty.as_str()));
        let r2 = replace_all(&r1, &chars_of("{settings_path}"), &chars_of(settings_path));
        string_from_chars(&r2)
    }

    fn render_error_prompt(&self, event: &Event) -> (r: String)
        ensures
            r@ == sp_render_error(self@.error_prompt, event@),
    {
        proof {
            reveal_strlit("{event_data}");
        }
        let t = trim_chars(&chars_of(self.error_prompt.as_str()));
        let pretty = encode_event_pretty(event);
        let r1 = replace_all(&t, &chars_of("{event_data}"), &chars_of(pretty.as_str()));
        string_from_chars(&r1)
    }
}

// ---------------------------------------------------------------------------
// what the consent gate guarantees
// ---------------------------------------------------------------------------

/// Once a consent decision is stored, every later non-error event outside
/// CI is permitted or denied by exactly that boolean, with no prompt.
pub proof fn lemma_consent_persistence(b: bool, ci_tracking: bool, interactive: bool)
    ensures
        sp_consent_plan(false, ci_tracking, false, Some(b), interactive) == (ConsentPlan::Decided {
            permit: b,
        }),
{
}

/// An error event with a terminal attached always consults the prompt,
/// whatever is stored, and neither answer is ever persisted: two
/// consecutive error events answer independently.
pub proof fn lemma_error_never_persists(
    st1: Option<bool>,
    st2: Option<bool>,
    ci_tracking: bool,
    a1: Option<bool>,
    a2: Option<bool>,
)
    ensures
        sp_consent_plan(false, ci_tracking, true, st1, true) == ConsentPlan::AskError,
        sp_consent_plan(false, ci_tracking, true, st2, true) == ConsentPlan::AskError,
        sp_prompt_outcome(true, a1).1 is None,
        sp_prompt_outcome(true, a2).1 is None,
        sp_prompt_outcome(true, a1).0 == (a1 == Some(true)),
        sp_prompt_outcome(true, a2).0 == (a2 == Some(true)),
{
}

/// In CI no prompt is ever raised, whatever is stored; the permit equals
/// the configured CI tracking flag exactly.
pub proof fn lemma_ci_short_circuit(
    ci_tracking: bool,
    is_error: bool,
    stored: Option<bool>,
    interactive: bool,
)
    ensures
        sp_consent_plan(true, ci_tracking, is_error, stored, interactive) == (ConsentPlan::Decided {
            permit: ci_tracking,
        }),
{
}

/// With no interactive terminal and no stored decision, tracking is denied
/// and the plan never reaches a prompt, so nothing can be persisted.
pub proof fn lemma_no_terminal_denies(ci_tracking: bool, is_error: bool)
    ensures
        sp_consent_plan(false, ci_tracking, is_error, None, false) == (ConsentPlan::Decided {
            permit: false,
        }),
{
}

/// Writing the user id into the store neither adds nor changes a stored
/// consent decision.
pub proof fn lemma_bootstrap_keeps_tracking(p: Seq<RawMember>, v: Seq<char>)
    ensures
        sp_store_tracking(set_pair(p, "user_id"@, v)) == sp_store_tracking(p),
        sp_store_has(set_pair(p, "user_id"@, v), "tracking_enabled"@) == sp_store_has(
            p,
            "tracking_enabled"@,
        ),
{
    reveal_strlit("user_id");
    reveal_strlit("tracking_enabled");
    assert("user_id"@.len() != "tracking_enabled"@.len());
    crate::json::lemma_lookup_set_other(p, "user_id"@, v, "tracking_enabled"@);
}

proof fn lemma_bool_raw_wf()
    ensures
        raw_value_wf("true"@),
        raw_value_wf("false"@),
        field_wf("tracking_enabled"@),
        field_wf("user_id"@),
{
    reveal_strlit("true");
    reveal_strlit("false");
    reveal_strlit("tracking_enabled");
    reveal_strlit("user_id");
    let t = "true"@;
    let f = "false"@;
    assert forall|i: int| 0 <= i < t.len() implies !crate::json::scan_stops(
        crate::json::scan_fold(#[trigger] t.take(i), crate::json::scan_init()),
        t[i],
    ) by {
        lemma_plain_word_fold(t, i);
    }
    lemma_plain_word_fold(t, t.len() as int);
    assert(t.take(t.len() as int) =~= t);
    assert forall|i: int| 0 <= i < f.len() implies !crate::json::scan_stops(
        crate::json::scan_fold(#[trigger] f.take(i), crate::json::scan_init()),
        f[i],
    ) by {
        lemma_plain_word_fold(f, i);
    }
    lemma_plain_word_fold(f, f.len() as int);
    assert(f.take(f.len() as int) =~= f);
}

/// Letters leave the raw-value scanner in its initial state.
proof fn lemma_plain_word_fold(s: Seq<char>, i: int)
    requires
        0 <= i <= s.len(),
        forall|k: int| 0 <= k < s.len() ==> 'a' <= #[trigger] s[k] <= 'z',
    ensures
        crate::json::scan_fold(s.take(i), crate::json::scan_init()) == crate::json::scan_init(),
    decreases i,
{
    if i == 0 {
        assert(s.take(0) =~= Seq::<char>::empty());
    } else {
        lemma_plain_word_fold(s, i - 1);
        assert(s.take(i) =~= s.take(i - 1).push(s[i - 1]));
        crate::json::lemma_scan_fold_snoc(s.take(i - 1), s[i - 1], crate::json::scan_init());
        assert(crate::json::scan_step(crate::json::scan_init(), s[i - 1])
            == crate::json::scan_init());
    }
}

/// What a settled general prompt writes into the settings file reads back
/// as exactly that decision, and a later non-error event outside CI is
/// then permitted or denied by it with no prompt.  `p` is the parsed
/// store the write started from.
pub proof fn lemma_consent_write_read(
    p: Seq<RawMember>,
    b: bool,
    ci_tracking: bool,
    interactive: bool,
)
    requires
        crate::json::pairs_wf(p),
    ensures
        ({
            let raw = if b {
                "true"@
            } else {
                "false"@
            };
            let written = enc_obj(set_pair(p, "tracking_enabled"@, raw), true);
            &&& sp_parse_store(Some(written)) == set_pair(p, "tracking_enabled"@, raw)
            &&& sp_store_tracking(sp_parse_store(Some(written))) == Some(b)
            &&& sp_consent_plan(false, ci_tracking, false, Some(b), interactive)
                == (ConsentPlan::Decided { permit: b })
        }),
{
    lemma_bool_raw_wf();
    let raw = if b {
        "true"@
    } else {
        "false"@
    };
    crate::json::lemma_set_pair_wf(p, "tracking_enabled"@, raw);
    crate::json::lemma_parse_obj_rt(set_pair(p, "tracking_enabled"@, raw), true);
    lemma_persist_tracking(p, b);
    reveal_strlit("true");
    reveal_strlit("false");
}

/// The user-id bootstrap write reads back as the same store with the user
/// id set, and neither adds nor changes a stored consent decision.  `p`
/// is the parsed store the write started from.
pub proof fn lemma_bootstrap_write_read(p: Seq<RawMember>, u: Seq<char>)
    requires
        crate::json::pairs_wf(p),
        field_wf(u),
    ensures
        ({
            let written = enc_obj(set_pair(p, "user_id"@, quote(u)), true);
            &&& sp_parse_store(Some(written)) == set_pair(p, "user_id"@, quote(u))
            &&& sp_store_tracking(sp_parse_store(Some(written))) == sp_store_tracking(p)
            &&& sp_store_has(sp_parse_store(Some(written)), "tracking_enabled"@) == sp_store_has(
                p,
                "tracking_enabled"@,
            )
        }),
{
    lemma_bool_raw_wf();
    crate::json::lemma_quote_raw_wf(u);
    crate::json::lemma_set_pair_wf(p, "user_id"@, quote(u));
    crate::json::lemma_parse_obj_rt(set_pair(p, "user_id"@, quote(u)), true);
    lemma_bootstrap_keeps_tracking(p, quote(u));
}

/// Whatever store this crate reads — an absent file, unreadable text, or
/// a parsed object — is well formed, so the write-read laws above apply
/// to every settings file the host hands in.
pub proof fn lemma_parse_store_wf(t: Option<Seq<char>>)
    ensures
        crate::json::pairs_wf(sp_parse_store(t)),
{
    match t {
        None => {},
        Some(s) => {
            crate::json::lemma_parse_obj_wf(s);
        },
    }
}

/// Persisting a consent decision stores exactly that boolean.
pub proof fn lemma_persist_tracking(p: Seq<RawMember>, b: bool)
    ensures
        sp_store_tracking(
            set_pair(
                p,
                "tracking_enabled"@,
                if b {
                    "true"@
                } else {
                    "false"@
                },
            ),
        ) == Some(b),
{
    reveal_strlit("true");
    reveal_strlit("false");
    assert("true"@.len() != "false"@.len());
    crate::json::lemma_lookup_set_same(
        p,
        "tracking_enabled"@,
        if b {
            "true"@
        } else {
            "false"@
        },
    );
}

} // verus!
