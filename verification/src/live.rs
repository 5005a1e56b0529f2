//! Platform-neutral LIVE types: cookies, stream inputs and probe results.
use crate::platform::PlatformId;
use vstd::prelude::*;

verus! {

/// A cookie handed to Streamlink.
#[derive(Debug, Clone)]
pub struct HttpCookie {
    pub domain: String,
    pub name: String,
    pub value: String,
    pub secure: bool,
}

impl HttpCookie {
    pub open spec fn spec_tuple(self) -> (Seq<char>, Seq<char>, Seq<char>, bool) {
        (self.domain@, self.name@, self.value@, self.secure)
    }
}

/// What Streamlink records from.
#[derive(Debug, Clone)]
pub enum StreamInput {
    /// A resolved HLS playlist URL.
    DirectHls(String),
    /// A page URL resolved by a Streamlink plugin, with its cookies.
    PluginUrl { url: String, cookies: Vec<HttpCookie>, start_at_zero: bool },
}

/// A resolved LIVE stream.
#[derive(Debug, Clone)]
pub struct ResolvedStream {
    pub quality: String,
    pub cdn: String,
    pub host: String,
    pub input: StreamInput,
}

/// Settings used while resolving a SOOP stream.
pub struct StreamResolveConfig<'a> {
    pub worker_url: &'a str,
    pub worker_api_key: &'a str,
    pub max_retries: usize,
}

/// A broadcast that is on air.
#[derive(Debug, Clone)]
pub struct LiveBroadcast {
    pub platform: PlatformId,
    pub id: String,
    pub channel_name: String,
    pub title: String,
    pub password_required: bool,
}

/// The outcome of one LIVE check of a channel.
#[derive(Debug, Clone)]
pub enum LiveProbe {
    Offline,
    AuthRequired,
    Live(LiveBroadcast),
}

/// Why LIVE recording is refused for a platform.
#[derive(Debug, Clone, Copy, PartialEq, Eq, Structural)]
pub enum LiveError {
    Unsupported(PlatformId),
}

/// Refuses platforms without LIVE support.
pub fn ensure_supported(platform: PlatformId) -> (r: Result<(), LiveError>)
    ensures
        r is Ok <==> platform.capabilities_spec().live,
        r matches Err(e) ==> e == LiveError::Unsupported(platform),
{
    if !platform.capabilities().live {
        return Err(LiveError::Unsupported(platform));
    }
    Ok(())
}

} // verus!
