//! The Nexus Mods REST v1 client: what it asks for and how it reads replies.
//!
//! The HTTP round trip itself is the caller's; this holds the key, the
//! allowance and the rules that turn a request into a URL and headers and a
//! response into a body or an error.

use vstd::prelude::*;

use crate::json::{decode_json, encode_json, find_field, get_of, json_decoded, json_encoded, str_of, JsonValue};
use crate::ratelimit::{header_views, merged, reading_of, RateLimit};
use crate::text::{chars_of, concat_chars, string_from_chars};
use crate::upscaler::{decimal, decimal_exec};

verus! {

pub const API_BASE: &'static str = "https://api.nexusmods.com";

/// The version this client reports to the API.
pub const APP_VERSION: &'static str = "0.1.0";

#[derive(Debug)]
pub enum NexusError {
    /// No API key has been set.
    NoApiKey,
    /// The API key was rejected.
    BadApiKey,
    /// A direct download link needs Nexus Premium.
    PremiumRequired,
    /// The download link has expired.
    LinkExpired,
    /// Rate limited by Nexus.
    RateLimited,
    /// Any other unsuccessful status.
    Http { status: u16, body: String },
    /// The request did not get through.
    Network(String),
    /// The response could not be read.
    Decode(String),
}

/// One HTTP response, reduced to what the client needs.
#[derive(Debug, Clone)]
pub struct HttpResponse {
    pub status: u16,
    pub headers: Vec<(String, String)>,
    pub body: String,
}

/// Who an API key belongs to.
#[derive(Debug, Clone)]
pub struct Account {
    pub name: String,
    pub is_premium: bool,
    pub user_id: u64,
}

#[derive(Debug, Clone)]
pub struct ModInfo {
    pub mod_id: u64,
    pub name: Option<String>,
    pub version: Option<String>,
    pub summary: Option<String>,
    pub picture_url: Option<String>,
    pub category_id: Option<i64>,
    pub available: bool,
}

#[derive(Debug, Clone)]
pub struct ModFile {
    pub file_id: u64,
    pub name: String,
    pub version: Option<String>,
    pub file_name: String,
    pub size_in_bytes: Option<u64>,
    pub category_name: Option<String>,
    pub is_primary: bool,
}

/// A mod whose files changed inside the queried window.
#[derive(Debug, Clone)]
pub struct UpdatedMod {
    pub mod_id: u64,
    pub latest_file_update: i64,
}

/// The key, the game and the allowance as of the last call.
pub struct NexusClient {
    api_key: String,
    domain: String,
    app_name: String,
    app_version: String,
    limit: RateLimit,
}

impl NexusClient {
    pub fn new(api_key: &str, domain: &str) -> (r: NexusClient)
        ensures
            r.key()@ == api_key@,
            r.domain()@ == domain@,
            r.rate_limit_view() == crate::ratelimit::no_reading(),
    {
        NexusClient {
            api_key: crate::text::owned(api_key),
            domain: crate::text::owned(domain),
            app_name: crate::text::owned("SB Mod Manager"),
            app_version: crate::text::owned(APP_VERSION),
            limit: RateLimit::unknown(),
        }
    }

    pub closed spec fn key(&self) -> String {
        self.api_key
    }

    pub closed spec fn domain(&self) -> String {
        self.domain
    }

    pub closed spec fn rate_limit_view(&self) -> RateLimit {
        self.limit
    }

    /// The allowance as of the last call.
    pub fn rate_limit(&self) -> (r: RateLimit)
        ensures
            r == self.rate_limit_view(),
    {
        self.limit
    }

    /// Fold the allowance headers of a response into what is known.
    pub fn record_limits(&mut self, headers: &[(&str, &str)])
        ensures
            final(self).rate_limit_view() == merged(old(self).rate_limit_view(), reading_of(header_views(headers@))),
            final(self).key() == old(self).key(),
            final(self).domain() == old(self).domain(),
    {
        let fresh = RateLimit::from_headers(headers);
        self.limit.merge(fresh);
    }

    /// The headers every request carries.
    pub fn headers(&self) -> (r: Vec<(String, String)>)
        ensures
            r.len() == 5,
            r@[0].0@ == "apikey"@ && r@[0].1@ == self.key()@,
            r@[1].0@ == "Application-Name"@ && r@[1].1@ == "SB Mod Manager"@,
            r@[2].0@ == "Application-Version"@ && r@[2].1@ == APP_VERSION@,
            r@[3].0@ == "Accept"@ && r@[3].1@ == "application/json"@,
            r@[4].0@ == "Content-Type"@ && r@[4].1@ == "application/json"@,
    {
        let mut v: Vec<(String, String)> = Vec::new();
        v.push((crate::text::owned("apikey"), self.api_key.clone()));
        v.push((crate::text::owned("Application-Name"), crate::text::owned("SB Mod Manager")));
        v.push((crate::text::owned("Application-Version"), crate::text::owned(APP_VERSION)));
        v.push((crate::text::owned("Accept"), crate::text::owned("application/json")));
        v.push((crate::text::owned("Content-Type"), crate::text::owned("application/json")));
        v
    }

    /// The full URL of a v1 path; a client without a key asks nothing.
    pub fn url_for(&self, path: &str) -> (r: Result<String, NexusError>)
        ensures
            self.key()@.len() == 0 ==> (r matches Err(NexusError::NoApiKey)),
            self.key()@.len() > 0 ==> (r matches Ok(u) && u@ == API_BASE@ + path@),
    {
        if self.api_key.unicode_len() == 0 {
            return Err(NexusError::NoApiKey);
        }
        let v = concat_chars(chars_of(API_BASE).as_slice(), chars_of(path).as_slice());
        Ok(string_from_chars(v.as_slice()))
    }

    /// `/v1/games/<domain>/mods/<id>.json`.
    pub fn mod_info_path(&self, mod_id: u64) -> (r: String)
        ensures
            r@ == "/v1/games/"@ + self.domain()@ + "/mods/"@ + decimal(mod_id as nat) + ".json"@,
    {
        let v = concat_chars(chars_of("/v1/games/").as_slice(), chars_of(self.domain.as_str()).as_slice());
        let v = concat_chars(v.as_slice(), chars_of("/mods/").as_slice());
        let v = concat_chars(v.as_slice(), decimal_exec(mod_id).as_slice());
        let v = concat_chars(v.as_slice(), chars_of(".json").as_slice());
        string_from_chars(v.as_slice())
    }

    /// `/v1/games/<domain>/mods/<id>/files.json`.
    pub fn mod_files_path(&self, mod_id: u64) -> (r: String)
        ensures
            r@ == "/v1/games/"@ + self.domain()@ + "/mods/"@ + decimal(mod_id as nat) + "/files.json"@,
    {
        let v = concat_chars(chars_of("/v1/games/").as_slice(), chars_of(self.domain.as_str()).as_slice());
        let v = concat_chars(v.as_slice(), chars_of("/mods/").as_slice());
        let v = concat_chars(v.as_slice(), decimal_exec(mod_id).as_slice());
        let v = concat_chars(v.as_slice(), chars_of("/files.json").as_slice());
        string_from_chars(v.as_slice())
    }

    /// The download-link path, carrying an `nxm://` link's credentials when
    /// there are some.
    pub fn download_link_path(&self, mod_id: u64, file_id: u64, credentials: Option<(&str, u64)>) -> (r: String)
        ensures
            r@ == "/v1/games/"@ + self.domain()@ + "/mods/"@ + decimal(mod_id as nat) + "/files/"@
                + decimal(file_id as nat) + "/download_link.json"@ + match credentials {
                Some((key, expires)) => "?key="@ + key@ + "&expires="@ + decimal(expires as nat),
                None => Seq::<char>::empty(),
            },
    {
        let v = concat_chars(chars_of("/v1/games/").as_slice(), chars_of(self.domain.as_str()).as_slice());
        let v = concat_chars(v.as_slice(), chars_of("/mods/").as_slice());
        let v = concat_chars(v.as_slice(), decimal_exec(mod_id).as_slice());
        let v = concat_chars(v.as_slice(), chars_of("/files/").as_slice());
        let v = concat_chars(v.as_slice(), decimal_exec(file_id).as_slice());
        let v = concat_chars(v.as_slice(), chars_of("/download_link.json").as_slice());
        match credentials {
            Some((key, expires)) => {
                let v = concat_chars(v.as_slice(), chars_of("?key=").as_slice());
                let v = concat_chars(v.as_slice(), chars_of(key).as_slice());
                let v = concat_chars(v.as_slice(), chars_of("&expires=").as_slice());
                let v = concat_chars(v.as_slice(), decimal_exec(expires).as_slice());
                string_from_chars(v.as_slice())
            },
            None => {
                assert(v@ + Seq::<char>::empty() =~= v@);
                string_from_chars(v.as_slice())
            },
        }
    }

    /// `/v1/games/<domain>/mods/updated.json?period=<period>`.
    pub fn updated_path(&self, period: &str) -> (r: String)
        ensures
            r@ == "/v1/games/"@ + self.domain()@ + "/mods/updated.json?period="@ + period@,
    {
        let v = concat_chars(chars_of("/v1/games/").as_slice(), chars_of(self.domain.as_str()).as_slice());
        let v = concat_chars(v.as_slice(), chars_of("/mods/updated.json?period=").as_slice());
        let v = concat_chars(v.as_slice(), chars_of(period).as_slice());
        string_from_chars(v.as_slice())
    }
}

/// What an error says to the user.
pub open spec fn error_message(e: NexusError) -> Seq<char> {
    match e {
        NexusError::NoApiKey => "no API key has been set"@,
        NexusError::BadApiKey => "the API key was rejected"@,
        NexusError::PremiumRequired => "a direct download link needs Nexus Premium. Use the Mod Manager Download button on the mod page and the manager will pick it up."@,
        NexusError::LinkExpired => "the download link has expired; start the download again from the mod page"@,
        NexusError::RateLimited => "rate limited by Nexus; try again later"@,
        NexusError::Http { status, body } => "nexus returned "@ + decimal(status as nat) + ": "@ + body@,
        NexusError::Network(m) => "network error: "@ + m@,
        NexusError::Decode(m) => "could not read the response: "@ + m@,
    }
}

impl NexusError {
    /// What the error says to the user.
    pub fn message(&self) -> (r: String)
        ensures
            r@ == error_message(*self),
    {
        match self {
            NexusError::NoApiKey => crate::text::owned("no API key has been set"),
            NexusError::BadApiKey => crate::text::owned("the API key was rejected"),
            NexusError::PremiumRequired => crate::text::owned(
                "a direct download link needs Nexus Premium. Use the Mod Manager Download button on the mod page and the manager will pick it up.",
            ),
            NexusError::LinkExpired => crate::text::owned(
                "the download link has expired; start the download again from the mod page",
            ),
            NexusError::RateLimited => crate::text::owned("rate limited by Nexus; try again later"),
            NexusError::Http { status, body } => {
                let v = concat_chars(chars_of("nexus returned ").as_slice(), decimal_exec(*status as u64).as_slice());
                let v = concat_chars(v.as_slice(), chars_of(": ").as_slice());
                let v = concat_chars(v.as_slice(), chars_of(body.as_str()).as_slice());
                string_from_chars(v.as_slice())
            },
            NexusError::Network(m) => {
                let v = concat_chars(chars_of("network error: ").as_slice(), chars_of(m.as_str()).as_slice());
                string_from_chars(v.as_slice())
            },
            NexusError::Decode(m) => {
                let v = concat_chars(chars_of("could not read the response: ").as_slice(), chars_of(m.as_str()).as_slice());
                string_from_chars(v.as_slice())
            },
        }
    }
}

/// Turn a response into its body, or the error its status means.
pub fn check(status: u16, body: String) -> (r: Result<String, NexusError>)
    ensures
        200 <= status <= 299 ==> (r matches Ok(b) && b@ == body@),
        status == 401 ==> (r matches Err(NexusError::BadApiKey)),
        status == 429 ==> (r matches Err(NexusError::RateLimited)),
        !(200 <= status <= 299) && status != 401 && status != 429 ==> (r matches Err(
            NexusError::Http { status: s, body: b },
        ) && s == status && b@ == body@),
{
    if 200 <= status && status <= 299 {
        Ok(body)
    } else if status == 401 {
        Err(NexusError::BadApiKey)
    } else if status == 429 {
        Err(NexusError::RateLimited)
    } else {
        Err(NexusError::Http { status, body })
    }
}

/// What a failed download-link request means. A 403 there is one of two
/// very different things: with credentials the link has expired, without
/// them the account is not Premium.
pub fn download_link_failure(error: NexusError, had_credentials: bool) -> (r: NexusError)
    ensures
        (error matches NexusError::Http { status, .. } && status == 403) ==> (if had_credentials {
            r matches NexusError::LinkExpired
        } else {
            r matches NexusError::PremiumRequired
        }),
        !(error matches NexusError::Http { status, .. } && status == 403) ==> r == error,
{
    match error {
        NexusError::Http { status, body } => {
            if status == 403 {
                if had_credentials {
                    NexusError::LinkExpired
                } else {
                    NexusError::PremiumRequired
                }
            } else {
                NexusError::Http { status, body }
            }
        },
        other => other,
    }
}

/// The link to download from, out of the URIs a download-link reply lists:
/// the first, or a decode error when the reply lists none.
pub fn first_download_link(uris: Vec<String>) -> (r: Result<String, NexusError>)
    ensures
        uris.len() > 0 ==> (r matches Ok(u) && u@ == uris@[0]@),
        uris.len() == 0 ==> (r matches Err(NexusError::Decode(m)) && m@ == "no download links in the response"@),
{
    let mut uris = uris;
    if uris.len() > 0 {
        Ok(uris.swap_remove(0))
    } else {
        Err(NexusError::Decode(crate::text::owned("no download links in the response")))
    }
}

/// Throttling, the network, or a status worth trying again.
pub open spec fn should_retry_of(error: NexusError) -> bool {
    match error {
        NexusError::RateLimited => true,
        NexusError::Network(_) => true,
        NexusError::Http { status, .. } => status == 429 || (500 <= status && status < 600),
        _ => false,
    }
}

/// Whether an error is worth another attempt: throttling, the network, or a
/// status that `is_retryable` accepts.
pub fn should_retry(error: &NexusError) -> (r: bool)
    ensures
        r == should_retry_of(*error),
{
    match error {
        NexusError::RateLimited | NexusError::Network(_) => true,
        NexusError::Http { status, .. } => crate::ratelimit::is_retryable(*status),
        _ => false,
    }
}

// ---------------------------------------------------------------------------
// Describing a file before it is downloaded
// ---------------------------------------------------------------------------

/// What the API can tell about a file before it is downloaded.
#[derive(Debug, Clone)]
pub struct Described {
    pub name: String,
    pub file_name: String,
    pub version: Option<String>,
}

/// The first file of a listing with the given id.
pub open spec fn file_with_id(files: Seq<ModFile>, file_id: u64, i: int) -> Option<int>
    decreases files.len() - i,
{
    if i < 0 || i >= files.len() {
        None
    } else if files[i].file_id == file_id {
        Some(i)
    } else {
        file_with_id(files, file_id, i + 1)
    }
}

/// What a file is called and which version it is, from the mod's details
/// and its file listing when the API answered: the ids stand in for a name
/// it did not give, and the file's own version beats the mod's, since a mod
/// page can offer an older file alongside the current one.
pub open spec fn described_of(
    mod_id: u64,
    file_id: u64,
    info: Option<ModInfo>,
    files: Option<Seq<ModFile>>,
) -> (Seq<char>, Seq<char>, Option<Seq<char>>) {
    let name = match info {
        Some(i) => match i.name {
            Some(n) => n@,
            None => "Mod "@ + crate::upscaler::decimal(mod_id as nat),
        },
        None => "Mod "@ + crate::upscaler::decimal(mod_id as nat),
    };
    let version = match info {
        Some(i) => crate::model::opt_view(i.version),
        None => None,
    };
    let fallback_file = crate::upscaler::decimal(mod_id as nat) + "-"@ + crate::upscaler::decimal(
        file_id as nat,
    ) + ".zip"@;
    match files {
        Some(fs) => match file_with_id(fs, file_id, 0) {
            Some(k) => (
                name,
                crate::collection::safe_name_of(fs[k].file_name@),
                if fs[k].version is Some {
                    crate::model::opt_view(fs[k].version)
                } else {
                    version
                },
            ),
            None => (name, fallback_file, version),
        },
        None => (name, fallback_file, version),
    }
}

fn copy_opt(o: &Option<String>) -> (r: Option<String>)
    ensures
        crate::model::opt_view(r) == crate::model::opt_view(*o),
{
    match o {
        Some(s) => Some(crate::text::owned(s.as_str())),
        None => None,
    }
}

/// Describe a file from what the API answered (nothing, where it could not
/// be asked): names are cosmetic, so a failure there must not stop the
/// download.
pub fn describe(mod_id: u64, file_id: u64, info: Option<&ModInfo>, files: Option<&[ModFile]>) -> (r: Described)
    ensures
        (r.name@, r.file_name@, crate::model::opt_view(r.version)) == described_of(
            mod_id,
            file_id,
            match info {
                Some(i) => Some(*i),
                None => None,
            },
            match files {
                Some(f) => Some(f@),
                None => None,
            },
        ),
{
    let id_text = crate::upscaler::decimal_exec(mod_id);
    let name = match info {
        Some(i) => match &i.name {
            Some(n) => crate::text::owned(n.as_str()),
            None => string_from_chars(concat_chars(chars_of("Mod ").as_slice(), id_text.as_slice()).as_slice()),
        },
        None => string_from_chars(concat_chars(chars_of("Mod ").as_slice(), id_text.as_slice()).as_slice()),
    };
    let version = match info {
        Some(i) => copy_opt(&i.version),
        None => None,
    };
    let v = concat_chars(id_text.as_slice(), chars_of("-").as_slice());
    let v = concat_chars(v.as_slice(), crate::upscaler::decimal_exec(file_id).as_slice());
    let v = concat_chars(v.as_slice(), chars_of(".zip").as_slice());
    let fallback_file = string_from_chars(v.as_slice());
    match files {
        Some(fs) => {
            let mut k: usize = 0;
            while k < fs.len() && fs[k].file_id != file_id
                invariant
                    k <= fs.len(),
                    file_with_id(fs@, file_id, k as int) == file_with_id(fs@, file_id, 0),
                decreases fs.len() - k,
            {
                k = k + 1;
            }
            if k < fs.len() {
                let file_name = crate::collection::safe_file_name(fs[k].file_name.as_str());
                let version = if fs[k].version.is_some() {
                    copy_opt(&fs[k].version)
                } else {
                    version
                };
                Described { name, file_name, version }
            } else {
                Described { name, file_name: fallback_file, version }
            }
        },
        None => Described { name, file_name: fallback_file, version },
    }
}

// ---------------------------------------------------------------------------
// GraphQL (the v2 API, used for collections)
// ---------------------------------------------------------------------------

/// The request body for a query: `{"query": .., "variables": ..}`.
pub open spec fn is_query_payload(p: JsonValue, query: Seq<char>, variables: JsonValue) -> bool {
    match p {
        JsonValue::Object(fs) => fs@.len() == 2 && fs@[0].0@ == "query"@ && (match fs@[0].1 {
            JsonValue::String(q) => q@ == query,
            _ => false,
        }) && fs@[1].0@ == "variables"@ && fs@[1].1 == variables,
        _ => false,
    }
}

/// The JSON text posted to the GraphQL endpoint for one query. Every number
/// in the variables is a whole number a `u64` holds: those are the only
/// numbers a tree of this crate carries the value of.
pub fn graphql_payload(query: &str, variables: JsonValue) -> (r: String)
    requires
        crate::json::encodable(variables),
    ensures
        exists|p: JsonValue| is_query_payload(p, query@, variables) && r@ == json_encoded(p),
{
    let ghost vars = variables;
    let payload = JsonValue::Object(
        vec![
            (crate::text::owned("query"), JsonValue::String(crate::text::owned(query))),
            (crate::text::owned("variables"), variables),
        ],
    );
    assert(is_query_payload(payload, query@, vars));
    proof {
        let fs = payload->Object_0@;
        assert(fs.len() == 2 && fs[1].1 == vars);
        assert(crate::json::encodable(fs[0].1));
        assert(crate::json::encodable_fields(fs, 0));
        assert(crate::json::encodable_fields(fs, 1));
        assert(crate::json::encodable_fields(fs, 2));
    }
    encode_json(&payload)
}

/// The message one GraphQL error carries, or a stand-in when it has none.
pub open spec fn graphql_message(e: JsonValue) -> Seq<char> {
    match str_of(get_of(e, "message"@)) {
        Some(m) => m,
        None => "unknown error"@,
    }
}

/// The messages of several errors, separated by `"; "`.
pub open spec fn joined_messages(es: Seq<JsonValue>) -> Seq<char>
    decreases es.len(),
{
    if es.len() == 0 {
        Seq::empty()
    } else if es.len() == 1 {
        graphql_message(es[0])
    } else {
        joined_messages(es.drop_last()) + seq![';', ' '] + graphql_message(es.last())
    }
}

/// The errors a GraphQL reply lists, if it lists them.
pub open spec fn reported_errors(v: JsonValue) -> Seq<JsonValue> {
    match get_of(v, "errors"@) {
        Some(JsonValue::Array(es)) => es@,
        _ => Seq::empty(),
    }
}

/// The data a GraphQL reply carries; `null` when it carries none.
pub open spec fn graphql_data(v: JsonValue) -> JsonValue {
    match get_of(v, "data"@) {
        Some(d) => d,
        None => JsonValue::Null,
    }
}

/// What a decoded GraphQL reply comes to: an error when it lists any errors
/// (their messages, joined), otherwise its data.
pub open spec fn graphql_outcome(v: JsonValue, r: Result<JsonValue, NexusError>) -> bool {
    if reported_errors(v).len() > 0 {
        r matches Err(NexusError::Decode(m)) && m@ == joined_messages(reported_errors(v))
    } else {
        r matches Ok(d) && d == graphql_data(v)
    }
}

fn error_messages(es: &Vec<JsonValue>) -> (r: String)
    ensures
        r@ == joined_messages(es@),
{
    let mut out: Vec<char> = Vec::new();
    let mut i: usize = 0;
    while i < es.len()
        invariant
            i <= es.len(),
            out@ == joined_messages(es@.subrange(0, i as int)),
        decreases es.len() - i,
    {
        proof {
            assert(es@.subrange(0, i as int + 1).drop_last() =~= es@.subrange(0, i as int));
        }
        let message = match es[i].get("message") {
            Some(m) => match m.as_str() {
                Some(text) => chars_of(text),
                None => chars_of("unknown error"),
            },
            None => chars_of("unknown error"),
        };
        if i > 0 {
            out.push(';');
            out.push(' ');
        }
        out = concat_chars(out.as_slice(), message.as_slice());
        proof {
            assert(out@ =~= joined_messages(es@.subrange(0, i as int + 1)));
        }
        i = i + 1;
    }
    proof {
        assert(es@.subrange(0, es@.len() as int) =~= es@);
    }
    string_from_chars(out.as_slice())
}

/// Read a decoded GraphQL reply. The API answers 200 even when a query
/// failed, so the `errors` list is what tells failure apart; an empty one
/// means success.
pub fn graphql_reply(reply: JsonValue) -> (r: Result<JsonValue, NexusError>)
    ensures
        graphql_outcome(reply, r),
{
    if let Some(errors) = reply.get("errors") {
        if let JsonValue::Array(es) = errors {
            if es.len() > 0 {
                return Err(NexusError::Decode(error_messages(es)));
            }
        }
    }
    match reply {
        JsonValue::Object(mut fields) => {
            let ghost before = fields@;
            match find_field(&fields, "data") {
                Some(i) => {
                    let (_, data) = fields.remove(i);
                    assert(data == before[i as int].1);
                    Ok(data)
                },
                None => Ok(JsonValue::Null),
            }
        },
        _ => Ok(JsonValue::Null),
    }
}

/// Read the text of a GraphQL reply: decode it, then [`graphql_reply`].
/// Text that is not JSON is a decode error with the decoder's message.
pub fn graphql_result(body: &str) -> (r: Result<JsonValue, NexusError>)
    ensures
        match json_decoded(body@) {
            Ok(v) => graphql_outcome(v, r),
            Err(m) => r matches Err(NexusError::Decode(x)) && x@ == m,
        },
{
    match decode_json(body) {
        Ok(reply) => graphql_reply(reply),
        Err(message) => Err(NexusError::Decode(message)),
    }
}

} // verus!
