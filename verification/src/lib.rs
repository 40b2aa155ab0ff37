//! Embeddable usage-telemetry client.
//!
//! The host application records discrete events which are either dispatched
//! at once to a collection endpoint or queued durably on disk and flushed
//! later.  This crate holds the verified core: the JSON codec for event
//! records, the consent-gating state machine, the layered configuration
//! resolution, the durable queue model, and the orchestration decisions
//! that tie them together.  The host performs the file, terminal and
//! network work and hands the results back as plain values: it reads the
//! settings file and the environment before a call, and afterwards writes
//! what the call tells it to write, posts what it tells it to post, and
//! raises the prompt it tells it to raise.
use vstd::prelude::*;

pub mod api;
pub mod events;
pub mod json;
pub mod settings;

use crate::events::encode_event;
use crate::events::Event;
use crate::events::event_wf;
use crate::events::EventData;
use crate::events::EventLog;
use crate::events::events_view;
use crate::events::sp_encode_event;
use crate::events::sp_replay;
use crate::json::chars_of;
use crate::json::check_field_wf;
use crate::json::check_line_safe;
use crate::json::check_raw_value_wf;
use crate::json::enc_obj;
use crate::json::field_wf;
use crate::json::line_safe;
use crate::json::push_quoted;
use crate::json::quote;
use crate::json::raw_value_wf;
use crate::json::set_pair;
use crate::settings::ConsentPlan;
use crate::settings::ConsentQuery;
use crate::settings::EnvSnapshot;
use crate::settings::lemma_uuid_text_field_wf;
use crate::settings::opt_str_view;
use crate::settings::opt_string_view;
use crate::settings::Settings;
use crate::settings::SettingsData;
use crate::settings::sp_consent_plan;
use crate::settings::sp_invocation_id_source;
use crate::settings::sp_is_ci;
use crate::settings::sp_parse_store;
use crate::settings::sp_prompt_outcome;
use crate::settings::sp_render_error;
use crate::settings::sp_render_general;
use crate::settings::sp_store_has;
use crate::settings::sp_store_tracking;
use crate::settings::sp_store_user_id;
use crate::settings::sp_user_id_source;
use crate::settings::UserStore;
use crate::settings::uuid_text;

verus! {

/// Booleans cross the host boundary as integers: zero is false, anything
/// else is true.
pub fn parse_ffi_bool(i: u32) -> (b: bool)
    ensures
        b == (i != 0),
{
    i != 0
}

/// What the host must do next for one tracked event.
pub enum TrackAct {
    /// Nothing leaves the machine and nothing is queued.
    Done,
    /// Append the event to the durable queue.
    Append,
    /// Post `body` to the collection endpoint; on any failure, append the
    /// event to the durable queue instead.
    Dispatch { body: String },
    /// Raise the prompt and hand its answer to `track_resume`.
    Prompt { error_path: bool, text: String },
}

/// One step of the tracking orchestration: the settings file to write, if
/// any, the action to take, and the event record in flight.
pub struct TrackStep {
    pub store_write: Option<String>,
    pub act: TrackAct,
    pub event: Option<Event>,
}

/// Host arguments are accepted when all three are present and can be
/// written losslessly on one queue line.
pub open spec fn sp_track_valid(
    slug: Option<String>,
    event_type: Option<String>,
    metadata: Option<String>,
) -> bool {
    &&& slug matches Some(s) && field_wf(s@)
    &&& event_type matches Some(t) && field_wf(t@)
    &&& metadata matches Some(m) && raw_value_wf(m@) && line_safe(m@)
}

/// A resolved identifier is writable whenever its source is, and always
/// when it is freshly generated.
pub open spec fn sp_source_ok(src: Option<Seq<char>>) -> bool {
    match src {
        Some(v) => field_wf(v),
        None => true,
    }
}

/// The action owed once the permit is settled: denial is silent and total;
/// a permitted event is posted when dispatch was requested, else queued.
pub open spec fn sp_act_for(permit: bool, dispatch: bool, e: EventData, act: TrackAct) -> bool {
    if !permit {
        act is Done
    } else if dispatch {
        act matches TrackAct::Dispatch { body } && body@ == sp_encode_event(e)
    } else {
        act is Append
    }
}

fn noop_step() -> (r: TrackStep)
    ensures
        r.store_write is None,
        r.act is Done,
        r.event is None,
{
    TrackStep { store_write: None, act: TrackAct::Done, event: None }
}

/// Track one event: resolve its identity, bootstrap the stored user id,
/// evaluate the consent gate, and say what the host must do.  Malformed
/// input is a pure no-op.  The permit, when a prompt must be raised, is
/// settled by `track_resume`.
pub fn track_event(
    settings: &Settings,
    env: &EnvSnapshot,
    store_text: Option<&String>,
    interactive: bool,
    settings_path: &str,
    slug: Option<String>,
    event_type: Option<String>,
    metadata: Option<String>,
    dispatch: bool,
) -> (r: TrackStep)
    ensures
        !sp_track_valid(slug, event_type, metadata) ==> r.store_write is None && r.act is Done
            && r.event is None,
        r.event is None ==> r.store_write is None && r.act is Done,
        ({
            let p = sp_parse_store(opt_str_view(store_text));
            let uid_src = sp_user_id_source(
                opt_string_view(env.user_id),
                settings@.user_id,
                sp_store_user_id(p),
            );
            let iid_src = sp_invocation_id_source(
                opt_string_view(env.invocation_id),
                settings@.invocation_id,
            );
            &&& (sp_track_valid(slug, event_type, metadata) && sp_source_ok(uid_src)
                && sp_source_ok(iid_src) ==> r.event is Some)
            &&& (sp_track_valid(slug, event_type, metadata) ==> match r.event {
                None => true,
                Some(e) => {
                &&& event_wf(e@)
                &&& e@.slug == slug.unwrap()@
                &&& e@.type_s == event_type.unwrap()@
                &&& e@.metadata == metadata.unwrap()@
                &&& match uid_src {
                    Some(v) => e@.user_id == v,
                    None => uuid_text(e@.user_id),
                }
                &&& match iid_src {
                    Some(v) => e@.invocation_id == v,
                    None => uuid_text(e@.invocation_id),
                }
                &&& (sp_store_has(p, "user_id"@) ==> r.store_write is None)
                &&& (!sp_store_has(p, "user_id"@) ==> (r.store_write matches Some(w) && w@
                    == enc_obj(set_pair(p, "user_id"@, quote(e@.user_id)), true)))
                &&& match sp_consent_plan(
                    sp_is_ci(settings@.is_ci, env.ci_present),
                    settings@.ci_tracking_enabled,
                    e@.type_s == "error"@,
                    sp_store_tracking(p),
                    interactive,
                ) {
                    ConsentPlan::Decided { permit } => sp_act_for(permit, dispatch, e@, r.act),
                    ConsentPlan::AskGeneral => r.act matches TrackAct::Prompt {
                        error_path,
                        text,
                    } && error_path == false && text@ == sp_render_general(
                        settings@.request_permission_prompt,
                        e@,
                        settings_path@,
                    ),
                    ConsentPlan::AskError => r.act matches TrackAct::Prompt { error_path, text }
                        && error_path == true && text@ == sp_render_error(
                        settings@.error_prompt,
                        e@,
                    ),
                }
            },
            })
        }),
{
    let (slug_s, ty_s, meta_s) = match (slug, event_type, metadata) {
        (Some(a), Some(b), Some(c)) => (a, b, c),
        _ => {
            return noop_step();
        },
    };
    if !check_field_wf(&chars_of(slug_s.as_str())) {
        return noop_step();
    }
    if !check_field_wf(&chars_of(ty_s.as_str())) {
        return noop_step();
    }
    let meta_c = chars_of(meta_s.as_str());
    if !check_raw_value_wf(&meta_c) || !check_line_safe(&meta_c) {
        return noop_step();
    }
    let mut store = UserStore::parse(store_text);
    let has_uid = store.has("user_id");
    let stored_tracking = store.get_tracking();
    let stored_uid = store.get_user_id();
    let user_id = settings.get_user_id(env.user_id.as_ref(), stored_uid.as_ref());
    let invocation_id = settings.get_invocation_id(env.invocation_id.as_ref());
    proof {
        let uid_src = sp_user_id_source(
            opt_string_view(env.user_id),
            settings@.user_id,
            sp_store_user_id(sp_parse_store(opt_str_view(store_text))),
        );
        if uid_src is None {
            lemma_uuid_text_field_wf(user_id@);
        }
        let iid_src = sp_invocation_id_source(
            opt_string_view(env.invocation_id),
            settings@.invocation_id,
        );
        if iid_src is None {
            lemma_uuid_text_field_wf(invocation_id@);
        }
    }
    if !check_field_wf(&chars_of(user_id.as_str())) {
        return noop_step();
    }
    if !check_field_wf(&chars_of(invocation_id.as_str())) {
        return noop_step();
    }
    let event = Event::new(
        slug_s.as_str(),
        ty_s.as_str(),
        meta_s,
        user_id.as_str(),
        invocation_id.as_str(),
    );
    let mut store_write: Option<String> = None;
    if !has_uid {
        let mut quoted: Vec<char> = Vec::new();
        push_quoted(&mut quoted, &chars_of(user_id.as_str()));
        store.set("user_id", &quoted);
        store_write = Some(store.encode());
    }
    let query = settings.should_track_event(
        &event,
        stored_tracking,
        interactive,
        env.ci_present,
        settings_path,
    );
    match query {
        ConsentQuery::Decided { permit } => {
            if !permit {
                TrackStep { store_write, act: TrackAct::Done, event: Some(event) }
            } else if dispatch {
                let body = encode_event(&event);
                TrackStep { store_write, act: TrackAct::Dispatch { body }, event: Some(event) }
            } else {
                TrackStep { store_write, act: TrackAct::Append, event: Some(event) }
            }
        },
        ConsentQuery::Prompt { error_path, text } => TrackStep {
            store_write,
            act: TrackAct::Prompt { error_path, text },
            event: Some(event),
        },
    }
}

/// Settle a prompt's answer: a failed prompt is an implicit "do not
/// track"; a general answer is persisted as the stored consent decision;
/// an error-path answer is never persisted.
pub fn track_resume(
    store_text: Option<&String>,
    event: Event,
    error_path: bool,
    answer: Option<bool>,
    dispatch: bool,
) -> (r: TrackStep)
    ensures
        ({
            let (permit, persist) = sp_prompt_outcome(error_path, answer);
            &&& (persist is None ==> r.store_write is None)
            &&& (persist matches Some(b) ==> (r.store_write matches Some(w) && w@ == enc_obj(
                set_pair(
                    sp_parse_store(opt_str_view(store_text)),
                    "tracking_enabled"@,
                    if b {
                        "true"@
                    } else {
                        "false"@
                    },
                ),
                true,
            )))
            &&& sp_act_for(permit, dispatch, event@, r.act)
            &&& r.event matches Some(e2) && e2@ == event@
        }),
{
    let permit = match answer {
        Some(b) => b,
        None => false,
    };
    let mut store_write: Option<String> = None;
    if !error_path {
        match answer {
            Some(b) => {
                let mut store = UserStore::parse(store_text);
                let val = if b {
                    chars_of("true")
                } else {
                    chars_of("false")
                };
                store.set("tracking_enabled", &val);
                store_write = Some(store.encode());
            },
            None => {},
        }
    }
    let act = if !permit {
        TrackAct::Done
    } else if dispatch {
        let body = encode_event(&event);
        TrackAct::Dispatch { body }
    } else {
        TrackAct::Append
    };
    TrackStep { store_write, act, event: Some(event) }
}

/// Replay the queue and hand back one POST body per queued record, in
/// append order.
pub fn dispatch_events(log: &EventLog) -> (bodies: Vec<String>)
    ensures
        bodies@.len() == sp_replay(log.text()).len(),
        forall|i: int|
            0 <= i < bodies@.len() ==> (#[trigger] bodies@[i])@ == sp_encode_event(
                sp_replay(log.text())[i],
            ),
{
    let events = log.get_events();
    let mut bodies: Vec<String> = Vec::new();
    let n = events.len();
    let mut i: usize = 0;
    while i < n
        invariant
            0 <= i <= n,
            n == events@.len(),
            events_view(events@) == sp_replay(log.text()),
            bodies@.len() == i,
            forall|k: int|
                0 <= k < i ==> (#[trigger] bodies@[k])@ == sp_encode_event(
                    sp_replay(log.text())[k],
                ),
        decreases n - i,
    {
        let body = crate::api::post_event_body(&events[i]);
        proof {
            assert(events_view(events@)[i as int] == events@[i as int]@);
        }
        bodies.push(body);
        i += 1;
    }
    bodies
}

/// Settle a flush: when at least one record was posted, the queue file is
/// removed entirely — records that failed in the same pass are dropped,
/// deliberately, so duplicates cannot grow without bound.  When nothing
/// was posted, the queue is left untouched for a future retry.
pub fn dispatch_events_finish(log: &mut EventLog, results: &Vec<bool>)
    ensures
        (exists|i: int| 0 <= i < results@.len() && results@[i]) ==> final(log).content is None,
        !(exists|i: int| 0 <= i < results@.len() && results@[i]) ==> *final(log) == *old(log),
{
    let n = results.len();
    let mut any: bool = false;
    let mut i: usize = 0;
    while i < n
        invariant
            0 <= i <= n,
            n == results@.len(),
            any == exists|k: int| 0 <= k < i && results@[k],
        decreases n - i,
    {
        if results[i] {
            any = true;
            assert(results@[i as int]);
        }
        i += 1;
    }
    if any {
        log.clear();
    }
}

// ---------------------------------------------------------------------------
// the entry-point setters: absent input is silently ignored
// ---------------------------------------------------------------------------

pub fn set_project_key(settings: &mut Settings, key: Option<String>)
    ensures
        match key {
            Some(k) => final(settings)@ == (SettingsData { project_key: k@, ..old(settings)@ }),
            None => *final(settings) == *old(settings),
        },
{
    match key {
        Some(k) => settings.set_project_key(k.as_str()),
        None => {},
    }
}

pub fn set_version(settings: &mut Settings, version: Option<String>)
    ensures
        match version {
            Some(v) => final(settings)@ == (SettingsData { version: v@, ..old(settings)@ }),
            None => *final(settings) == *old(settings),
        },
{
    match version {
        Some(v) => {
            settings.version = v;
        },
        None => {},
    }
}

pub fn set_project_slug(settings: &mut Settings, slug: Option<String>)
    ensures
        match slug {
            Some(v) => final(settings)@ == (SettingsData { project_slug: v@, ..old(settings)@ }),
            None => *final(settings) == *old(settings),
        },
{
    match slug {
        Some(v) => {
            settings.project_slug = v;
        },
        None => {},
    }
}

pub fn set_instance_id(settings: &mut Settings, id: Option<String>)
    ensures
        match id {
            Some(v) => final(settings)@ == (SettingsData { instance_id: v@, ..old(settings)@ }),
            None => *final(settings) == *old(settings),
        },
{
    match id {
        Some(v) => {
            settings.instance_id = v;
        },
        None => {},
    }
}

pub fn set_request_permission_prompt(settings: &mut Settings, text: Option<String>)
    ensures
        match text {
            Some(v) => final(settings)@ == (SettingsData {
                request_permission_prompt: v@,
                ..old(settings)@
            }),
            None => *final(settings) == *old(settings),
        },
{
    match text {
        Some(v) => {
            settings.request_permission_prompt = v;
        },
        None => {},
    }
}

pub fn set_debug(settings: &mut Settings, debug: u32)
    ensures
        final(settings)@ == (SettingsData { debug: debug != 0, ..old(settings)@ }),
{
    let b = parse_ffi_bool(debug);
    settings.set_debug(b);
}

pub fn set_is_ci(settings: &mut Settings, is_ci: u32)
    ensures
        final(settings)@ == (SettingsData { is_ci: Some(is_ci != 0), ..old(settings)@ }),
{
    let b = parse_ffi_bool(is_ci);
    settings.set_is_ci(b);
}

pub fn set_ci_tracking_enabled(settings: &mut Settings, enabled: u32)
    ensures
        final(settings)@ == (SettingsData {
            ci_tracking_enabled: enabled != 0,
            ..old(settings)@
        }),
{
    let b = parse_ffi_bool(enabled);
    settings.ci_tracking_enabled = b;
}

pub fn set_user_id(settings: &mut Settings, user_id: Option<String>)
    ensures
        match user_id {
            Some(v) => final(settings)@ == (SettingsData { user_id: v@, ..old(settings)@ }),
            None => *final(settings) == *old(settings),
        },
{
    match user_id {
        Some(v) => settings.set_user_id(v.as_str()),
        None => {},
    }
}

pub fn set_invocation_id(settings: &mut Settings, invocation_id: Option<String>)
    ensures
        match invocation_id {
            Some(v) => final(settings)@ == (SettingsData { invocation_id: v@, ..old(settings)@ }),
            None => *final(settings) == *old(settings),
        },
{
    match invocation_id {
        Some(v) => settings.set_invocation_id(v.as_str()),
        None => {},
    }
}

} // verus!
