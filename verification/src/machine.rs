use vstd::prelude::*;

use crate::args::{spec_download_token, UpdateArgs};
use crate::document::JsonValue;
use crate::updater::{
    cached_token, get_download_url_from_json, spec_cached_token, spec_resolve, spec_update_needed,
    update_needed,
};

verus! {

/// How a run ended.
#[derive(Clone, Copy, Debug, PartialEq, Eq, Structural)]
pub enum Outcome {
    /// The remote manifest could not be fetched or parsed; nothing changed.
    RemoteUnavailable,
    /// The remote manifest is present but offers no link for the requested
    /// identity.  The surrounding program treats this as a fatal abort.
    LinkUnresolved,
    /// The remote and cached versions agree and no update was forced.
    UpToDate,
    /// The archive could not be downloaded; nothing changed.
    DownloadFailed,
    /// Extraction failed: the target tree may be left partially updated,
    /// and the cache stays untouched.
    ApplyFailed,
    /// The update was applied.  `cache_written` records whether the new
    /// manifest could also be persisted; when it could not, the next run
    /// simply re-detects this version and re-applies it.
    Updated { cache_written: bool },
}

/// Where a run stands between two effects.
#[derive(Debug, PartialEq)]
pub enum Step {
    Idle,
    FetchingRemote,
    LoadingCache { manifest: JsonValue, web_url: String },
    Downloading { manifest: JsonValue },
    Applying { manifest: JsonValue, staged: String },
    RemovingStaged { manifest: JsonValue, apply_ok: bool },
    WritingCache,
    Finished { outcome: Outcome },
}

/// What the surrounding program reports back after performing an effect.
pub enum Event {
    Start,
    /// The remote fetch finished; a fetch or parse failure delivers the
    /// absent manifest, `JsonValue::Null`.
    RemoteFetched { manifest: JsonValue },
    /// The cache load finished; a missing or unreadable cache delivers the
    /// absent manifest, `JsonValue::Null`.
    CacheLoaded { manifest: JsonValue },
    /// The download finished: the path of the staged archive, or `None` on
    /// a non-success status or a transport failure.
    DownloadFinished { staged: Option<String> },
    /// The extraction attempt finished, successfully or not.
    ApplyFinished { ok: bool },
    /// The staged archive was removed.
    StagedRemoved,
    /// The cache write finished, successfully or not.
    CacheWriteFinished { ok: bool },
}

/// The next effect the surrounding program must perform.
#[derive(Debug, PartialEq)]
pub enum Action {
    FetchRemote,
    LoadCache { path: String },
    Download { url: String },
    Apply { target: String, staged: String, exclude: Vec<String> },
    RemoveStaged { staged: String },
    WriteCache { manifest: JsonValue, path: String },
    Report { outcome: Outcome },
}

/// Which event concludes which step.
pub open spec fn spec_accepts(s: Step, e: Event) -> bool {
    match (s, e) {
        (Step::Idle, Event::Start) => true,
        (Step::FetchingRemote, Event::RemoteFetched { .. }) => true,
        (Step::LoadingCache { .. }, Event::CacheLoaded { .. }) => true,
        (Step::Downloading { .. }, Event::DownloadFinished { .. }) => true,
        (Step::Applying { .. }, Event::ApplyFinished { .. }) => true,
        (Step::RemovingStaged { .. }, Event::StagedRemoved) => true,
        (Step::WritingCache, Event::CacheWriteFinished { .. }) => true,
        _ => false,
    }
}

/// What home expansion guarantees of every outcome: a path that does not
/// begin with a tilde comes back unchanged.
pub open spec fn spec_tilde_unchanged(path: Seq<char>, expanded: Seq<char>) -> bool {
    (path.len() == 0 || path[0] != '~') ==> expanded == path
}

/// Relies on shellexpand::tilde: it substitutes the process's home
/// directory for a leading tilde and returns every other path unchanged.
/// Which home directory that is depends on the environment, so the contract
/// fixes only the tilde-free case.
#[verifier::external_body]
fn expand_tilde(path: &String) -> (r: String)
    ensures
        spec_tilde_unchanged(path@, r@),
{
    shellexpand::tilde(path.as_str()).to_string()
}

/// The full transition relation of the pipeline, step and event to next
/// step and action.
pub open spec fn spec_step(args: UpdateArgs, s: Step, e: Event, s2: Step, a: Action) -> bool {
    match (s, e) {
        (Step::Idle, Event::Start) => s2 == Step::FetchingRemote && a == Action::FetchRemote,
        (Step::FetchingRemote, Event::RemoteFetched { manifest }) => {
            if manifest is Null {
                &&& s2 == (Step::Finished { outcome: Outcome::RemoteUnavailable })
                &&& a == (Action::Report { outcome: Outcome::RemoteUnavailable })
            } else {
                match spec_resolve(manifest, spec_download_token(args.download_type)) {
                    Some(url) => {
                        &&& s2 matches Step::LoadingCache { manifest: m2, web_url } && m2
                            == manifest && web_url@ == url
                        &&& a matches Action::LoadCache { path } && spec_tilde_unchanged(
                            args.cache_path@,
                            path@,
                        )
                    },
                    None => {
                        &&& s2 == (Step::Finished { outcome: Outcome::LinkUnresolved })
                        &&& a == (Action::Report { outcome: Outcome::LinkUnresolved })
                    },
                }
            }
        },
        (
            Step::LoadingCache { manifest, web_url },
            Event::CacheLoaded { manifest: cached_manifest },
        ) => {
            let cached = spec_cached_token(
                spec_resolve(cached_manifest, spec_download_token(args.download_type)),
            );
            if spec_update_needed(args.force, web_url@, cached) {
                &&& s2 matches Step::Downloading { manifest: m2 } && m2 == manifest
                &&& a matches Action::Download { url } && url == web_url
            } else {
                &&& s2 == (Step::Finished { outcome: Outcome::UpToDate })
                &&& a == (Action::Report { outcome: Outcome::UpToDate })
            }
        },
        (Step::Downloading { manifest }, Event::DownloadFinished { staged }) => {
            match staged {
                Some(path) => {
                    &&& s2 matches Step::Applying { manifest: m2, staged: st } && m2 == manifest
                        && st@ == path@
                    &&& a matches Action::Apply { target, staged: st2, exclude }
                        && spec_tilde_unchanged(args.server_path@, target@) && st2@ == path@
                        && exclude.deep_view() == args.exclude.deep_view()
                },
                None => {
                    &&& s2 == (Step::Finished { outcome: Outcome::DownloadFailed })
                    &&& a == (Action::Report { outcome: Outcome::DownloadFailed })
                },
            }
        },
        (Step::Applying { manifest, staged }, Event::ApplyFinished { ok }) => {
            &&& s2 matches Step::RemovingStaged { manifest: m2, apply_ok } && m2 == manifest
                && apply_ok == ok
            &&& a matches Action::RemoveStaged { staged: st } && st@ == staged@
        },
        (Step::RemovingStaged { manifest, apply_ok }, Event::StagedRemoved) => {
            if apply_ok {
                &&& s2 == Step::WritingCache
                &&& a matches Action::WriteCache { manifest: m2, path } && m2 == manifest
                    && spec_tilde_unchanged(args.cache_path@, path@)
            } else {
                &&& s2 == (Step::Finished { outcome: Outcome::ApplyFailed })
                &&& a == (Action::Report { outcome: Outcome::ApplyFailed })
            }
        },
        (Step::WritingCache, Event::CacheWriteFinished { ok }) => {
            &&& s2 == (Step::Finished { outcome: Outcome::Updated { cache_written: ok } })
            &&& a == (Action::Report { outcome: Outcome::Updated { cache_written: ok } })
        },
        _ => false,
    }
}

/// A copy of the exclusion list, handed out with an apply action.
fn clone_exclusions(exclude: &Vec<String>) -> (r: Vec<String>)
    ensures
        r.deep_view() == exclude.deep_view(),
{
    let r = exclude.clone();
    proof {
        assert forall|i: int| 0 <= i < exclude@.len() implies r@[i] == exclude@[i] by {
            assert(cloned::<String>(exclude@[i], r@[i]));
        }
        assert(r@ =~= exclude@);
    }
    r
}

/// One transition of the update pipeline: consumes the current step and the
/// event that concluded the last effect, and returns the next step and the
/// next effect to perform.  All decisions live here; the surrounding
/// program only performs the returned actions and reports how they went.
pub fn step(args: &UpdateArgs, s: Step, e: Event) -> (r: (Step, Action))
    requires
        spec_accepts(s, e),
    ensures
        spec_step(*args, s, e, r.0, r.1),
{
    match (s, e) {
        (Step::Idle, Event::Start) => (Step::FetchingRemote, Action::FetchRemote),
        (Step::FetchingRemote, Event::RemoteFetched { manifest }) => {
            if manifest.is_null() {
                (
                    Step::Finished { outcome: Outcome::RemoteUnavailable },
                    Action::Report { outcome: Outcome::RemoteUnavailable },
                )
            } else {
                match get_download_url_from_json(&manifest, &args.download_type) {
                    Some(url) => {
                        let path = expand_tilde(&args.cache_path);
                        (
                            Step::LoadingCache { manifest, web_url: url },
                            Action::LoadCache { path },
                        )
                    },
                    None => (
                        Step::Finished { outcome: Outcome::LinkUnresolved },
                        Action::Report { outcome: Outcome::LinkUnresolved },
                    ),
                }
            }
        },
        (
            Step::LoadingCache { manifest, web_url },
            Event::CacheLoaded { manifest: cached_manifest },
        ) => {
            let cached = cached_token(
                get_download_url_from_json(&cached_manifest, &args.download_type),
            );
            if update_needed(args.force, &web_url, &cached) {
                (Step::Downloading { manifest }, Action::Download { url: web_url })
            } else {
                (
                    Step::Finished { outcome: Outcome::UpToDate },
                    Action::Report { outcome: Outcome::UpToDate },
                )
            }
        },
        (Step::Downloading { manifest }, Event::DownloadFinished { staged }) => {
            match staged {
                Some(path) => {
                    let target = expand_tilde(&args.server_path);
                    let exclude = clone_exclusions(&args.exclude);
                    let staged_kept = path.clone();
                    (
                        Step::Applying { manifest, staged: staged_kept },
                        Action::Apply { target, staged: path, exclude },
                    )
                },
                None => (
                    Step::Finished { outcome: Outcome::DownloadFailed },
                    Action::Report { outcome: Outcome::DownloadFailed },
                ),
            }
        },
        (Step::Applying { manifest, staged }, Event::ApplyFinished { ok }) => {
            (
                Step::RemovingStaged { manifest, apply_ok: ok },
                Action::RemoveStaged { staged },
            )
        },
        (Step::RemovingStaged { manifest, apply_ok }, Event::StagedRemoved) => {
            if apply_ok {
                let path = expand_tilde(&args.cache_path);
                (Step::WritingCache, Action::WriteCache { manifest, path })
            } else {
                (
                    Step::Finished { outcome: Outcome::ApplyFailed },
                    Action::Report { outcome: Outcome::ApplyFailed },
                )
            }
        },
        (Step::WritingCache, Event::CacheWriteFinished { ok }) => {
            (
                Step::Finished { outcome: Outcome::Updated { cache_written: ok } },
                Action::Report { outcome: Outcome::Updated { cache_written: ok } },
            )
        },
        _ => vstd::pervasive::unreached(),
    }
}

/// The version gate: from the comparison step the run proceeds to download
/// exactly when the remote and cached tokens differ or the update is
/// forced; otherwise it ends up to date, downloading nothing, applying
/// nothing and writing no cache.
pub proof fn lemma_version_gate(
    args: UpdateArgs,
    manifest: JsonValue,
    web_url: String,
    cached_manifest: JsonValue,
    s2: Step,
    a: Action,
)
    requires
        spec_step(
            args,
            Step::LoadingCache { manifest, web_url },
            Event::CacheLoaded { manifest: cached_manifest },
            s2,
            a,
        ),
    ensures
        ({
            let cached = spec_cached_token(
                spec_resolve(cached_manifest, spec_download_token(args.download_type)),
            );
            &&& (args.force || web_url@ != cached) <==> (s2 matches Step::Downloading { .. } && (
            a matches Action::Download { url } && url == web_url))
            &&& (!args.force && web_url@ == cached) <==> (s2 == (Step::Finished {
                outcome: Outcome::UpToDate,
            }) && a == (Action::Report { outcome: Outcome::UpToDate }))
        }),
{
}

/// With no cache present, the cached token defaults to `"0.0.0"`, and any
/// remote token other than that default makes the run proceed.
pub proof fn lemma_cache_absent_updates(
    args: UpdateArgs,
    manifest: JsonValue,
    web_url: String,
    cached_manifest: JsonValue,
    s2: Step,
    a: Action,
)
    requires
        spec_step(
            args,
            Step::LoadingCache { manifest, web_url },
            Event::CacheLoaded { manifest: cached_manifest },
            s2,
            a,
        ),
        spec_resolve(cached_manifest, spec_download_token(args.download_type)) is None,
        web_url@ != "0.0.0"@,
    ensures
        s2 matches Step::Downloading { manifest: m2 } && m2 == manifest,
        a matches Action::Download { url } && url == web_url,
{
}

/// Cleanup is unconditional: whatever the apply attempt reported, the next
/// action removes the staged archive, before any cache write can happen.
pub proof fn lemma_staged_removed_after_apply(
    args: UpdateArgs,
    manifest: JsonValue,
    staged: String,
    ok: bool,
    s2: Step,
    a: Action,
)
    requires
        spec_step(
            args,
            Step::Applying { manifest, staged },
            Event::ApplyFinished { ok },
            s2,
            a,
        ),
    ensures
        a matches Action::RemoveStaged { staged: st } && st@ == staged@,
        s2 matches Step::RemovingStaged { manifest: m2, apply_ok } && m2 == manifest && apply_ok
            == ok,
{
}

/// The manifest a step carries, if any.
pub open spec fn spec_step_manifest(s: Step) -> Option<JsonValue> {
    match s {
        Step::LoadingCache { manifest, .. } => Some(manifest),
        Step::Downloading { manifest } => Some(manifest),
        Step::Applying { manifest, .. } => Some(manifest),
        Step::RemovingStaged { manifest, .. } => Some(manifest),
        _ => None,
    }
}

/// Chain of custody for the fetched manifest: a step never alters the
/// document it carries, the document enters exactly as the remote fetch
/// delivered it, and the cache-write action persists that same document.
pub proof fn lemma_manifest_provenance(args: UpdateArgs, s: Step, e: Event, s2: Step, a: Action)
    requires
        spec_step(args, s, e, s2, a),
    ensures
        (spec_step_manifest(s) is Some && spec_step_manifest(s2) is Some) ==> spec_step_manifest(
            s2,
        ) == spec_step_manifest(s),
        e matches Event::RemoteFetched { manifest } ==> (spec_step_manifest(s2) is Some
            ==> spec_step_manifest(s2) == Some(manifest)),
        a matches Action::WriteCache { manifest, .. } ==> spec_step_manifest(s) == Some(manifest),
{
}

/// The manifest a remote-fetch event delivers, if it is one.
pub open spec fn spec_event_manifest(e: Event) -> Option<JsonValue> {
    match e {
        Event::RemoteFetched { manifest } => Some(manifest),
        _ => None,
    }
}

/// The manifest a cache-write action persists, if it is one.
pub open spec fn spec_write_manifest(a: Action) -> Option<JsonValue> {
    match a {
        Action::WriteCache { manifest, .. } => Some(manifest),
        _ => None,
    }
}

proof fn lemma_carry_manifest(
    args: UpdateArgs,
    states: Seq<Step>,
    events: Seq<Event>,
    actions: Seq<Action>,
    k: int,
    j0: int,
    m: JsonValue,
)
    requires
        events.len() == actions.len(),
        states.len() == events.len() + 1,
        forall|i: int|
            0 <= i < events.len() ==> #[trigger] spec_step(
                args,
                states[i],
                events[i],
                states[i + 1],
                actions[i],
            ),
        0 <= k <= j0 < events.len(),
        spec_step_manifest(states[k]) == Some(m),
        actions[j0] matches Action::WriteCache { .. },
    ensures
        spec_write_manifest(actions[j0]) == Some(m),
    decreases j0 - k,
{
    assert(spec_step(args, states[k], events[k], states[k + 1], actions[k]));
    if k == j0 {
        // Only the cleanup step emits a cache write, and it hands over the
        // manifest its state carries.
        assert(spec_write_manifest(actions[k]) == Some(m));
    } else {
        let i1 = k + 1;
        assert(spec_step(args, states[i1], events[i1], states[i1 + 1], actions[i1]));
        // A finished run accepts no further event, so the run has not
        // finished at k + 1; a cache write at k would finish it right
        // after, and the write we chase lies further on, so the next state
        // still carries the fetched manifest.
        if actions[k] matches Action::WriteCache { .. } {
            assert(states[i1] == Step::WritingCache);
            if j0 == i1 {
                assert(false);
            } else {
                let i2 = k + 2;
                assert(spec_step(args, states[i2], events[i2], states[i2 + 1], actions[i2]));
                assert(states[i2] matches Step::Finished { .. });
                assert(false);
            }
        }
        assert(spec_step_manifest(states[i1]) == Some(m));
        lemma_carry_manifest(args, states, events, actions, i1, j0, m);
    }
}

/// Along any run the transition relation permits — any chain of steps,
/// events and actions related by `spec_step` — the document a cache-write
/// action persists is exactly the document the remote fetch delivered
/// earlier in that run.
pub proof fn lemma_run_persists_fetched_manifest(
    args: UpdateArgs,
    states: Seq<Step>,
    events: Seq<Event>,
    actions: Seq<Action>,
    k0: int,
    j0: int,
)
    requires
        events.len() == actions.len(),
        states.len() == events.len() + 1,
        forall|i: int|
            0 <= i < events.len() ==> #[trigger] spec_step(
                args,
                states[i],
                events[i],
                states[i + 1],
                actions[i],
            ),
        0 <= k0 <= j0 < events.len(),
        events[k0] matches Event::RemoteFetched { .. },
        actions[j0] matches Action::WriteCache { .. },
    ensures
        spec_write_manifest(actions[j0]) == spec_event_manifest(events[k0]),
{
    assert(spec_step(args, states[k0], events[k0], states[k0 + 1], actions[k0]));
    // Only the fetch step accepts a remote-fetch event, and it never emits
    // a cache write itself, so the write lies strictly later.
    assert(states[k0] is FetchingRemote);
    assert(k0 < j0);
    let m = spec_event_manifest(events[k0]).unwrap();
    // The run goes on past the fetch, so it did not end there: the next
    // state is the cache-loading step, which carries the fetched manifest.
    let i1 = k0 + 1;
    assert(spec_step(args, states[i1], events[i1], states[i1 + 1], actions[i1]));
    assert(spec_step_manifest(states[i1]) == Some(m));
    lemma_carry_manifest(args, states, events, actions, i1, j0, m);
}

/// The cache is written only on the success path: the write action appears
/// exactly when the apply attempt succeeded and the staged archive is
/// already gone, and it persists the manifest the run fetched.
pub proof fn lemma_cache_written_only_after_apply(
    args: UpdateArgs,
    manifest: JsonValue,
    apply_ok: bool,
    s2: Step,
    a: Action,
)
    requires
        spec_step(
            args,
            Step::RemovingStaged { manifest, apply_ok },
            Event::StagedRemoved,
            s2,
            a,
        ),
    ensures
        apply_ok <==> (a matches Action::WriteCache { .. }),
        apply_ok ==> (a matches Action::WriteCache { manifest: m2, path } && m2 == manifest
            && spec_tilde_unchanged(args.cache_path@, path@)),
        !apply_ok ==> s2 == (Step::Finished { outcome: Outcome::ApplyFailed }),
{
}

} // verus!
