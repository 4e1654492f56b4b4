use vstd::prelude::*;

verus! {

/// The build identity the caller asked to track: which entry of the remote
/// manifest's download list is relevant for this run.
#[derive(Clone, Copy, Debug, PartialEq, Eq, Structural)]
pub enum DownloadType {
    Windows,
    Linux,
    PreviewWindows,
    PreviewLinux,
    ServerJar,
}

/// The exact textual rendering of a build identity on the wire.  These five
/// tokens must match the remote manifest's vocabulary letter for letter.
pub open spec fn spec_download_token(d: DownloadType) -> Seq<char> {
    match d {
        DownloadType::Windows => "serverBedrockWindows"@,
        DownloadType::Linux => "serverBedrockLinux"@,
        DownloadType::PreviewWindows => "serverBedrockPreviewWindows"@,
        DownloadType::PreviewLinux => "serverBedrockPreviewLinux"@,
        DownloadType::ServerJar => "serverJar"@,
    }
}

impl DownloadType {
    /// The token the remote manifest uses for this identity.
    pub fn token(&self) -> (r: String)
        ensures
            r@ == spec_download_token(*self),
    {
        match self {
            DownloadType::Windows => "serverBedrockWindows".to_owned(),
            DownloadType::Linux => "serverBedrockLinux".to_owned(),
            DownloadType::PreviewWindows => "serverBedrockPreviewWindows".to_owned(),
            DownloadType::PreviewLinux => "serverBedrockPreviewLinux".to_owned(),
            DownloadType::ServerJar => "serverJar".to_owned(),
        }
    }
}

/// Everything one run of the updater needs: the identity to track, whether to
/// update even when the versions agree, the installation directory, the cache
/// file recording the last applied manifest, and the paths preserved during
/// extraction if they already exist on disk.
pub struct UpdateArgs {
    pub download_type: DownloadType,
    pub force: bool,
    pub server_path: String,
    pub cache_path: String,
    pub exclude: Vec<String>,
}

} // verus!
