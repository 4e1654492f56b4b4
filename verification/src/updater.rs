use vstd::prelude::*;

use crate::args::{spec_download_token, DownloadType};
use crate::document::{spec_as_text, spec_get, JsonValue};

verus! {

/// Whether `link` offers the download identified by `token`: its
/// `downloadType` member is a string that equals `token` letter for letter.
pub open spec fn spec_link_matches(link: JsonValue, token: Seq<char>) -> bool {
    match spec_get(link, "downloadType"@) {
        Some(v) => spec_as_text(v) == Some(token),
        None => false,
    }
}

/// The URL a link offers, when its `downloadUrl` member is a string.
pub open spec fn spec_link_url(link: JsonValue) -> Option<Seq<char>> {
    match spec_get(link, "downloadUrl"@) {
        Some(v) => spec_as_text(v),
        None => None,
    }
}

/// The first link of `links` matching `token`, scanning in document order.
pub open spec fn spec_first_match(links: Seq<JsonValue>, token: Seq<char>) -> Option<JsonValue>
    decreases links.len(),
{
    if links.len() == 0 {
        None
    } else if spec_link_matches(links[0], token) {
        Some(links[0])
    } else {
        spec_first_match(links.drop_first(), token)
    }
}

/// The download URL a manifest offers for an identity token: navigate
/// `manifest.result.links`, scan for the first link whose `downloadType`
/// equals the token, and take that link's `downloadUrl`.  Empty whenever any
/// step of the navigation fails: the manifest is not an object, `result` or
/// `links` is missing, `links` is not a sequence, no link matches, or the
/// matching link's URL is missing or not a string.
pub open spec fn spec_resolve(manifest: JsonValue, token: Seq<char>) -> Option<Seq<char>> {
    match spec_get(manifest, "result"@) {
        Some(result) => match spec_get(result, "links"@) {
            Some(JsonValue::Array(links)) => match spec_first_match(links@, token) {
                Some(link) => spec_link_url(link),
                None => None,
            },
            _ => None,
        },
        None => None,
    }
}

/// Whether `link` offers the download `token` names (executable form).
fn link_matches(link: &JsonValue, token: &String) -> (b: bool)
    ensures
        b == spec_link_matches(*link, token@),
{
    match link.get("downloadType") {
        Some(v) => match v.as_text() {
            Some(s) => *s == *token,
            None => false,
        },
        None => false,
    }
}

/// The URL of the first link of `json.result.links` whose `downloadType`
/// exactly equals the rendering of `download_type`; `None` whenever the
/// navigation or the scan comes up empty.  A pure lookup: the result is a
/// function of the two arguments and nothing else.
pub fn get_download_url_from_json(json: &JsonValue, download_type: &DownloadType) -> (r: Option<
    String,
>)
    ensures
        match r {
            Some(u) => spec_resolve(*json, spec_download_token(*download_type)) == Some(u@),
            None => spec_resolve(*json, spec_download_token(*download_type)) is None,
        },
{
    let ghost token = spec_download_token(*download_type);
    let token_string = download_type.token();
    let result = match json.get("result") {
        Some(v) => v,
        None => {
            return None;
        },
    };
    let links_value = match result.get("links") {
        Some(v) => v,
        None => {
            return None;
        },
    };
    let links = match links_value.as_array() {
        Some(items) => items,
        None => {
            return None;
        },
    };
    let n = links.len();
    proof {
        assert(links@.skip(0) =~= links@);
    }
    for i in 0..n
        invariant
            n == links@.len(),
            token == spec_download_token(*download_type),
            token_string@ == token,
            spec_resolve(*json, token) == (match spec_first_match(links@, token) {
                Some(link) => spec_link_url(link),
                None => None::<Seq<char>>,
            }),
            spec_first_match(links@.skip(i as int), token) == spec_first_match(links@, token),
    {
        let link = &links[i];
        proof {
            assert(links@.skip(i as int)[0] == links@[i as int]);
        }
        if link_matches(link, &token_string) {
            proof {
                assert(spec_first_match(links@.skip(i as int), token) == Some(links@[i as int]));
            }
            return match link.get("downloadUrl") {
                Some(v) => match v.as_text() {
                    Some(s) => Some(s.clone()),
                    None => None,
                },
                None => None,
            };
        }
        proof {
            assert(links@.skip(i as int).drop_first() =~= links@.skip(i + 1));
        }
    }
    proof {
        assert(links@.skip(n as int).len() == 0);
    }
    None
}

/// The version token a cache lookup yields: the resolved URL, or `"0.0.0"`
/// when the cache offered none.
pub open spec fn spec_cached_token(resolved: Option<Seq<char>>) -> Seq<char> {
    match resolved {
        Some(u) => u,
        None => "0.0.0"@,
    }
}

/// The cached version token: the URL resolved from the cached manifest, with
/// `"0.0.0"` standing in when the cache yielded none.
pub fn cached_token(resolved: Option<String>) -> (r: String)
    ensures
        r@ == spec_cached_token(resolved.deep_view()),
{
    match resolved {
        Some(u) => u,
        None => "0.0.0".to_owned(),
    }
}

/// Whether a run must download and apply: the remote and cached tokens
/// differ, or the caller forces the update.
pub open spec fn spec_update_needed(force: bool, web: Seq<char>, cached: Seq<char>) -> bool {
    force || web != cached
}

/// The update decision (executable form).
pub fn update_needed(force: bool, web: &String, cached: &String) -> (b: bool)
    ensures
        b == spec_update_needed(force, web@, cached@),
{
    force || *web != *cached
}

/// The characters after the last `/` of `s`; all of `s` when it has none.
pub open spec fn spec_tail_after_slash(s: Seq<char>) -> Seq<char>
    decreases s.len(),
{
    if s.len() == 0 {
        Seq::empty()
    } else if s[s.len() - 1] == '/' {
        Seq::empty()
    } else {
        spec_tail_after_slash(s.drop_last()).push(s[s.len() - 1])
    }
}

/// The file name a download URL yields for the staged archive: the segment
/// after the last `/`, or `"update.zip"` when that segment is empty or the
/// URL has none.
pub open spec fn spec_file_name(url: Seq<char>) -> Seq<char> {
    if spec_tail_after_slash(url).len() == 0 {
        "update.zip"@
    } else {
        spec_tail_after_slash(url)
    }
}

proof fn lemma_tail_after_slash_subrange(s: Seq<char>, i: int)
    requires
        0 <= i <= s.len(),
        forall|j: int| i <= j < s.len() ==> s[j] != '/',
        i == 0 || s[i - 1] == '/',
    ensures
        spec_tail_after_slash(s) == s.subrange(i, s.len() as int),
    decreases s.len(),
{
    if s.len() == i {
        assert(s.subrange(i, s.len() as int) =~= Seq::<char>::empty());
    } else {
        lemma_tail_after_slash_subrange(s.drop_last(), i);
        assert(s.drop_last().subrange(i, s.len() - 1).push(s[s.len() - 1]) =~= s.subrange(
            i,
            s.len() as int,
        ));
    }
}

/// The name of the file the staged archive is written under, derived from
/// the download URL.
pub fn file_name_from_url(url: &str) -> (r: String)
    ensures
        r@ == spec_file_name(url@),
{
    let n = url.unicode_len();
    let mut start: usize = 0;
    for idx in 0..n
        invariant
            n == url@.len(),
            start <= idx,
            start == 0 || url@[start - 1] == '/',
            forall|j: int| start <= j < idx ==> url@[j] != '/',
    {
        if url.get_char(idx) == '/' {
            start = idx + 1;
        }
    }
    proof {
        lemma_tail_after_slash_subrange(url@, start as int);
    }
    let tail = url.substring_char(start, n);
    if tail.unicode_len() == 0 {
        "update.zip".to_owned()
    } else {
        tail.to_owned()
    }
}

/// Resolving against the absent manifest yields nothing, whatever the
/// identity asked for.
pub proof fn lemma_resolve_absent(token: Seq<char>)
    ensures
        spec_resolve(JsonValue::Null, token) is None,
{
}

/// When `links` is present but is not a sequence, resolving yields nothing
/// rather than an error, whatever the identity asked for.
pub proof fn lemma_resolve_links_not_sequence(manifest: JsonValue, token: Seq<char>)
    requires
        spec_get(manifest, "result"@) matches Some(result_value) && (spec_get(
            result_value,
            "links"@,
        ) matches Some(links_value) && !(links_value is Array)),
    ensures
        spec_resolve(manifest, token) is None,
{
}

/// When several links match the token, the resolved URL is the first match's:
/// there is an index `i` holding the match, every earlier link does not
/// match, and the result is exactly that link's URL.
pub proof fn lemma_resolve_first_match(links: Seq<JsonValue>, token: Seq<char>)
    requires
        spec_first_match(links, token) is Some,
    ensures
        exists|i: int|
            0 <= i < links.len() && spec_link_matches(links[i], token) && spec_first_match(
                links,
                token,
            ) == Some(links[i]) && (forall|j: int|
                0 <= j < i ==> !spec_link_matches(links[j], token)),
    decreases links.len(),
{
    if links.len() > 0 {
        if spec_link_matches(links[0], token) {
            assert(spec_first_match(links, token) == Some(links[0]));
            assert(0 <= 0 < links.len() && spec_link_matches(links[0], token) && spec_first_match(
                links,
                token,
            ) == Some(links[0]) && (forall|j: int| 0 <= j < 0 ==> !spec_link_matches(links[j], token)));
        } else {
            lemma_resolve_first_match(links.drop_first(), token);
            let i0 = choose|i: int|
                0 <= i < links.drop_first().len() && spec_link_matches(links.drop_first()[i], token)
                    && spec_first_match(links.drop_first(), token) == Some(links.drop_first()[i])
                    && (forall|j: int|
                    0 <= j < i ==> !spec_link_matches(links.drop_first()[j], token));
            assert(links.drop_first()[i0] == links[i0 + 1]);
            assert forall|j: int| 0 <= j < i0 + 1 implies !spec_link_matches(
                links[j],
                token,
            ) by {
                if j > 0 {
                    assert(links.drop_first()[j - 1] == links[j]);
                }
            }
            assert(0 <= i0 + 1 < links.len() && spec_link_matches(links[i0 + 1], token)
                && spec_first_match(links, token) == Some(links[i0 + 1]) && (forall|j: int|
                0 <= j < i0 + 1 ==> !spec_link_matches(links[j], token)));
        }
    }
}

} // verus!
