//! Scene beautification: which backend turns the exported scene into a
//! Gaussian-splat PLY, what is sent to it, and how its reply is judged.
//!
//! The HTTP exchange and the file writes belong to the caller; this module
//! decides the configuration, builds the request and interprets the reply.

use vstd::prelude::*;

use crate::paths::{path_join, spec_path_join};
use vstd::string::StrSliceExecFns;

use crate::text::{concat3, format_u64, spec_decimal, spec_trim_end, trim_end_char};

verus! {

/// Where the scene is sent to be beautified.
#[derive(Debug, Clone)]
pub enum BeautifyBackend {
    /// A local GPU server behind a gateway.
    LocalGpu { gateway_url: String, gateway_key: String },
    /// A cloud API.
    CloudApi { api_url: String, api_key: String },
    /// For tests: an existing PLY file is copied as the result.
    Mock { ply_path: String },
}

/// Configuration of the beautification pipeline.
#[derive(Debug, Clone)]
pub struct BeautifyConfig {
    pub backend: BeautifyBackend,
    /// Style prompt, such as "photorealistic" or "stylized anime".
    pub style_prompt: Option<String>,
    /// Output PLY path, relative to the project root.
    pub output_ply: String,
}

/// Where the result is written when nothing else is configured.
pub open spec fn default_output_ply() -> Seq<char> {
    "assets/splats/beautified.ply"@
}

impl Default for BeautifyConfig {
    fn default() -> (c: Self)
        ensures
            c.backend matches BeautifyBackend::LocalGpu { gateway_url, gateway_key } && gateway_url@
                == Seq::<char>::empty() && gateway_key@ == Seq::<char>::empty(),
            c.style_prompt is None,
            c.output_ply@ == default_output_ply(),
    {
        BeautifyConfig {
            backend: BeautifyBackend::LocalGpu { gateway_url: String::new(), gateway_key: String::new() },
            style_prompt: None,
            output_ply: "assets/splats/beautified.ply".to_owned(),
        }
    }
}

/// What a finished beautification produced.
#[derive(Debug, Clone)]
pub struct BeautifyResult {
    /// Path of the PLY file written.
    pub ply_path: String,
    /// Number of gaussians, when the backend reports it.
    pub splat_count: Option<u32>,
    /// Which backend produced it.
    pub backend_name: String,
}

/// The three kinds of backend.
#[derive(Debug, Clone, Copy, PartialEq, Eq, Structural)]
pub enum BackendKind {
    LocalGpu,
    CloudApi,
    Mock,
}

impl BeautifyBackend {
    /// The kind of this backend.
    pub fn kind(&self) -> (k: BackendKind)
        ensures
            k == spec_backend_kind(*self),
    {
        match self {
            BeautifyBackend::LocalGpu { .. } => BackendKind::LocalGpu,
            BeautifyBackend::CloudApi { .. } => BackendKind::CloudApi,
            BeautifyBackend::Mock { .. } => BackendKind::Mock,
        }
    }
}

/// The kind of a backend.
pub open spec fn spec_backend_kind(b: BeautifyBackend) -> BackendKind {
    match b {
        BeautifyBackend::LocalGpu { .. } => BackendKind::LocalGpu,
        BeautifyBackend::CloudApi { .. } => BackendKind::CloudApi,
        BeautifyBackend::Mock { .. } => BackendKind::Mock,
    }
}

/// The name a result reports for its backend.
pub open spec fn spec_backend_name(k: BackendKind) -> Seq<char> {
    match k {
        BackendKind::LocalGpu => "local_gpu"@,
        BackendKind::CloudApi => "cloud_api"@,
        BackendKind::Mock => "mock"@,
    }
}

/// How a backend is named in error messages about its replies.
pub open spec fn spec_backend_label(k: BackendKind) -> Seq<char> {
    match k {
        BackendKind::LocalGpu => "Gateway"@,
        BackendKind::CloudApi => "Cloud API"@,
        BackendKind::Mock => "Mock"@,
    }
}

// ---------------------------------------------------------------------------
// Configuration from the environment
// ---------------------------------------------------------------------------

/// The environment variables the configuration is read from; `None` where a
/// variable is unset.
#[derive(Debug, Clone)]
pub struct BeautifyEnv {
    pub gateway_url: Option<String>,
    pub gateway_key: Option<String>,
    pub worldlabs_api_url: Option<String>,
    pub marble_api_url: Option<String>,
    pub worldlabs_api_key: Option<String>,
    pub marble_api_key: Option<String>,
    pub beautify_style: Option<String>,
}

/// The first of two variables that is set, else the empty string.
pub open spec fn first_set(a: Option<String>, b: Option<String>) -> Seq<char> {
    match a {
        Some(x) => x@,
        None => match b {
            Some(y) => y@,
            None => Seq::empty(),
        },
    }
}

/// The backend the environment selects: the gateway when its URL is set and
/// not empty; else the cloud API (World Labs before Marble) when its URL is
/// not empty; else the gateway with an empty URL, which fails when used.
pub open spec fn spec_env_backend(env: BeautifyEnv, b: BeautifyBackend) -> bool {
    let gateway = first_set(env.gateway_url, None);
    let api_url = first_set(env.worldlabs_api_url, env.marble_api_url);
    if gateway.len() > 0 {
        b matches BeautifyBackend::LocalGpu { gateway_url, gateway_key } && gateway_url@ == gateway
            && gateway_key@ == first_set(env.gateway_key, None)
    } else if api_url.len() > 0 {
        b matches BeautifyBackend::CloudApi { api_url: u, api_key } && u@ == api_url && api_key@
            == first_set(env.worldlabs_api_key, env.marble_api_key)
    } else {
        b matches BeautifyBackend::LocalGpu { gateway_url, gateway_key } && gateway_url@
            == Seq::<char>::empty() && gateway_key@ == Seq::<char>::empty()
    }
}

fn first_set_of(a: Option<String>, b: Option<String>) -> (r: String)
    ensures
        r@ == first_set(a, b),
{
    match a {
        Some(x) => x,
        None => match b {
            Some(y) => y,
            None => String::new(),
        },
    }
}

/// The configuration the environment describes.
pub fn config_from_env_values(env: BeautifyEnv) -> (c: BeautifyConfig)
    ensures
        spec_env_backend(env, c.backend),
        c.style_prompt == env.beautify_style,
        c.output_ply@ == default_output_ply(),
{
    let ghost e = env;
    let BeautifyEnv {
        gateway_url,
        gateway_key,
        worldlabs_api_url,
        marble_api_url,
        worldlabs_api_key,
        marble_api_key,
        beautify_style,
    } = env;
    let gateway_url = first_set_of(gateway_url, None);
    let gateway_key = first_set_of(gateway_key, None);
    let backend = if gateway_url.as_str().unicode_len() > 0 {
        BeautifyBackend::LocalGpu { gateway_url, gateway_key }
    } else {
        let api_url = first_set_of(worldlabs_api_url, marble_api_url);
        let api_key = first_set_of(worldlabs_api_key, marble_api_key);
        if api_url.as_str().unicode_len() > 0 {
            BeautifyBackend::CloudApi { api_url, api_key }
        } else {
            BeautifyBackend::LocalGpu { gateway_url: String::new(), gateway_key: String::new() }
        }
    };
    proof {
        assert(spec_env_backend(e, backend));
    }
    BeautifyConfig {
        backend,
        style_prompt: beautify_style,
        output_ply: "assets/splats/beautified.ply".to_owned(),
    }
}

/// Where the result PLY goes: the configured path under the project root.
pub fn beautify_output_path(config: &BeautifyConfig, project_root: &str) -> (p: String)
    ensures
        p@ == spec_path_join(project_root@, config.output_ply@),
{
    path_join(project_root, config.output_ply.as_str())
}

// ---------------------------------------------------------------------------
// Requests
// ---------------------------------------------------------------------------

/// The standard, padded Base64 encoding of `data`.
pub uninterp spec fn spec_base64_encode(data: Seq<u8>) -> Seq<char>;

/// What standard Base64 decoding makes of `text`: the bytes, or the text of
/// the error that rejects it.
pub uninterp spec fn spec_base64_decode(text: Seq<char>) -> Result<Seq<u8>, Seq<char>>;

/// `base64::Engine::encode` with the standard engine (padded, standard
/// alphabet). Its result is named; its length, four characters for every
/// started group of three bytes, is what `base64::encoded_len` computes.
/// The length computation panics on overflow, which the bound rules out.
#[verifier::external_body]
fn base64_encode(data: &[u8]) -> (r: String)
    requires
        data@.len() <= usize::MAX / 2,
    ensures
        r@ == spec_base64_encode(data@),
        r@.len() == 4 * ((data@.len() + 2) / 3),
{
    base64::Engine::encode(&base64::engine::general_purpose::STANDARD, data)
}

/// `base64::Engine::decode` with the standard engine. The bytes, or the
/// `Display` text of the `DecodeError`, are named by the input.
#[verifier::external_body]
fn base64_decode(text: &str) -> (r: Result<Vec<u8>, String>)
    ensures
        match r {
            Ok(v) => spec_base64_decode(text@) == Ok::<Seq<u8>, Seq<char>>(v@),
            Err(m) => spec_base64_decode(text@) == Err::<Seq<u8>, Seq<char>>(m@),
        },
{
    match base64::Engine::decode(&base64::engine::general_purpose::STANDARD, text) {
        Ok(v) => Ok(v),
        Err(e) => Err(format!("{}", e)),
    }
}

/// What is sent to a backend: the endpoint, the authorization header, the
/// style and the scene as Base64.
#[derive(Debug, Clone)]
pub struct BeautifyRequest {
    pub url: String,
    pub authorization: String,
    pub style: String,
    pub glb_base64: String,
}

/// The style sent: the configured prompt, else "photorealistic".
pub open spec fn spec_style(style_prompt: Option<String>) -> Seq<char> {
    match style_prompt {
        Some(s) => s@,
        None => "photorealistic"@,
    }
}

/// The gateway endpoint: the URL without trailing slashes, then `/beautify`.
pub open spec fn spec_gateway_endpoint(gateway_url: Seq<char>) -> Seq<char> {
    spec_trim_end(gateway_url, '/') + "/beautify"@
}

/// The message when the gateway URL is empty.
pub open spec fn gateway_unset_message() -> Seq<char> {
    "GATEWAY_URL not set. Configure it in .env for local GPU beautification."@
}

/// The message when the cloud API URL is empty.
pub open spec fn cloud_unset_message() -> Seq<char> {
    "Cloud API URL not set. Set WORLDLABS_API_URL or MARBLE_API_URL in .env."@
}

fn style_of(config: &BeautifyConfig) -> (s: String)
    ensures
        s@ == spec_style(config.style_prompt),
{
    match &config.style_prompt {
        Some(s) => s.clone(),
        None => "photorealistic".to_owned(),
    }
}

/// The request to the local GPU gateway; an error when its URL is empty.
pub fn gateway_request(gateway_url: &str, gateway_key: &str, glb_data: &[u8], config: &BeautifyConfig) -> (r: Result<BeautifyRequest, String>)
    requires
        glb_data@.len() <= usize::MAX / 2,
    ensures
        gateway_url@.len() == 0 <==> r is Err,
        match r {
            Ok(q) => q.url@ == spec_gateway_endpoint(gateway_url@) && q.authorization@ == "Bearer "@
                + gateway_key@ && q.style@ == spec_style(config.style_prompt) && q.glb_base64@
                == spec_base64_encode(glb_data@),
            Err(m) => m@ == gateway_unset_message(),
        },
{
    if gateway_url.unicode_len() == 0 {
        return Err("GATEWAY_URL not set. Configure it in .env for local GPU beautification.".to_owned());
    }
    let base = trim_end_char(gateway_url, '/');
    let url = concat3(base.as_str(), "/beautify", "");
    let authorization = concat3("Bearer ", gateway_key, "");
    proof {
        reveal_strlit("");
    }
    Ok(BeautifyRequest { url, authorization, style: style_of(config), glb_base64: base64_encode(glb_data) })
}

/// The request to the cloud API, sent to its URL as given; an error when
/// the URL is empty.
pub fn cloud_request(api_url: &str, api_key: &str, glb_data: &[u8], config: &BeautifyConfig) -> (r: Result<BeautifyRequest, String>)
    requires
        glb_data@.len() <= usize::MAX / 2,
    ensures
        api_url@.len() == 0 <==> r is Err,
        match r {
            Ok(q) => q.url@ == api_url@ && q.authorization@ == "Bearer "@ + api_key@ && q.style@
                == spec_style(config.style_prompt) && q.glb_base64@ == spec_base64_encode(glb_data@),
            Err(m) => m@ == cloud_unset_message(),
        },
{
    if api_url.unicode_len() == 0 {
        return Err("Cloud API URL not set. Set WORLDLABS_API_URL or MARBLE_API_URL in .env.".to_owned());
    }
    let authorization = concat3("Bearer ", api_key, "");
    proof {
        reveal_strlit("");
    }
    Ok(BeautifyRequest {
        url: api_url.to_owned(),
        authorization,
        style: style_of(config),
        glb_base64: base64_encode(glb_data),
    })
}

// ---------------------------------------------------------------------------
// Replies
// ---------------------------------------------------------------------------

/// A reply is accepted only with status 200; otherwise the error names the
/// backend, the status and the reply's text.
pub fn check_status(kind: BackendKind, status: u16, body: &str) -> (r: Result<(), String>)
    ensures
        status == 200 <==> r is Ok,
        match r {
            Ok(_) => true,
            Err(m) => m@ == spec_backend_label(kind) + " returned status "@ + spec_decimal(status as nat)
                + ": "@ + body@,
        },
{
    if status == 200 {
        return Ok(());
    }
    let label = match kind {
        BackendKind::LocalGpu => "Gateway",
        BackendKind::CloudApi => "Cloud API",
        BackendKind::Mock => "Mock",
    };
    let code = format_u64(status as u64);
    let head = concat3(label, " returned status ", code.as_str());
    Err(concat3(head.as_str(), ": ", body))
}

/// The PLY bytes in a gateway reply: its `ply_data` field, Base64-decoded.
pub fn gateway_ply(ply_data: Option<&str>) -> (r: Result<Vec<u8>, String>)
    ensures
        match ply_data {
            None => r matches Err(m) && m@ == "Gateway response missing 'ply_data' field"@,
            Some(t) => match spec_base64_decode(t@) {
                Ok(b) => r matches Ok(v) && v@ == b,
                Err(e) => r matches Err(m) && m@ == "Failed to decode PLY base64: "@ + e,
            },
        },
{
    match ply_data {
        None => Err("Gateway response missing 'ply_data' field".to_owned()),
        Some(t) => match base64_decode(t) {
            Ok(v) => Ok(v),
            Err(e) => {
                proof {
                    reveal_strlit("");
                }
                Err(concat3("Failed to decode PLY base64: ", e.as_str(), ""))
            },
        },
    }
}

/// Where the PLY of a cloud reply comes from.
#[derive(Debug, Clone)]
pub enum PlySource {
    /// The reply carried it.
    Bytes(Vec<u8>),
    /// It is to be downloaded from this URL.
    Download(String),
}

/// The PLY of a cloud reply: its `ply_data` field decoded when present, else
/// its `download_url`.
pub fn cloud_ply(ply_data: Option<&str>, download_url: Option<&str>) -> (r: Result<PlySource, String>)
    ensures
        match ply_data {
            Some(t) => match spec_base64_decode(t@) {
                Ok(b) => r matches Ok(PlySource::Bytes(v)) && v@ == b,
                Err(e) => r matches Err(m) && m@ == "Failed to decode PLY: "@ + e,
            },
            None => match download_url {
                Some(u) => r matches Ok(PlySource::Download(d)) && d@ == u@,
                None => r matches Err(m) && m@ == "Cloud API response missing 'ply_data' or 'download_url'"@,
            },
        },
{
    match ply_data {
        Some(t) => match base64_decode(t) {
            Ok(v) => Ok(PlySource::Bytes(v)),
            Err(e) => {
                proof {
                    reveal_strlit("");
                }
                Err(concat3("Failed to decode PLY: ", e.as_str(), ""))
            },
        },
        None => match download_url {
            Some(u) => Ok(PlySource::Download(u.to_owned())),
            None => Err("Cloud API response missing 'ply_data' or 'download_url'".to_owned()),
        },
    }
}

/// The result of a beautification written to `output_path`. A reported
/// count is kept modulo 2^32, as a cast to `u32` keeps it.
pub fn beautify_result(kind: BackendKind, output_path: &str, splat_count: Option<u64>) -> (r: BeautifyResult)
    ensures
        r.ply_path@ == output_path@,
        r.backend_name@ == spec_backend_name(kind),
        match splat_count {
            Some(c) => r.splat_count == Some((c % 0x1_0000_0000) as u32),
            None => r.splat_count is None,
        },
{
    let name = match kind {
        BackendKind::LocalGpu => "local_gpu",
        BackendKind::CloudApi => "cloud_api",
        BackendKind::Mock => "mock",
    };
    let count = match splat_count {
        Some(c) => Some((c % 0x1_0000_0000) as u32),
        None => None,
    };
    BeautifyResult { ply_path: output_path.to_owned(), splat_count: count, backend_name: name.to_owned() }
}

} // verus!
