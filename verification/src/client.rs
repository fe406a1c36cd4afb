//! Addresses of the mod website API, of the game downloads and of the
//! releases of Rustique; and the checks made on what they return.
use vstd::prelude::*;
use crate::error::RustiqueError;
use crate::text::str_eq;
use crate::version::{compare_versions, parsed, parses, version_order};

verus! {

/// Which game release channel to download from.
#[derive(Debug, Clone, Copy, PartialEq, Eq, Structural)]
pub enum VSMirrorType {
    Stable,
    Unstable,
}

/// Which program of the game to download.
#[derive(Debug, Clone, Copy, PartialEq, Eq, Structural)]
pub enum VSExecutabletype {
    Server,
    Client,
}

/// The operating system to download the game for.
#[derive(Debug, Clone, Copy, PartialEq, Eq, Structural)]
pub enum VSOSType {
    Linux,
    OSX,
    Windows,
}

/// Whether a Windows client download installs or updates the game.
#[derive(Debug, Clone, Copy, PartialEq, Eq, Structural)]
pub enum VSWinInstallerType {
    Install,
    Update,
}

impl VSOSType {
    /// The name an operating system is written with.
    pub open spec fn name(self) -> Seq<char> {
        match self {
            VSOSType::Linux => "linux"@,
            VSOSType::OSX => "osx"@,
            VSOSType::Windows => "windows"@,
        }
    }

    /// The operating system's name.
    pub fn as_str(&self) -> (r: &'static str)
        ensures
            r@ == self.name(),
    {
        match self {
            VSOSType::Linux => "linux",
            VSOSType::OSX => "osx",
            VSOSType::Windows => "windows",
        }
    }
}

/// The base address of the mod website API.
pub open spec fn api_base() -> Seq<char> {
    "https://mods.vintagestory.at/api"@
}

/// The address of an endpoint of the mod website API.
pub fn api_uri(endpoint: &str) -> (r: String)
    ensures
        r@ == api_base() + "/"@ + endpoint@,
{
    let mut r = "https://mods.vintagestory.at/api".to_string();
    r.push_str("/");
    r.push_str(endpoint);
    r
}

/// The mod ids worth asking the website for: the non-empty ones, in order.
pub fn valid_mod_ids(mod_list: &Vec<String>) -> (r: Vec<String>)
    ensures
        r@ == mod_list@.filter(|m: String| m@.len() > 0),
{
    let ghost p = |m: String| m@.len() > 0;
    let mut r: Vec<String> = Vec::new();
    let mut i: usize = 0;
    while i < mod_list.len()
        invariant
            i <= mod_list@.len(),
            p == (|m: String| m@.len() > 0),
            r@ == mod_list@.take(i as int).filter(p),
        decreases mod_list.len() - i,
    {
        proof {
            crate::keyed::lemma_filter_take(mod_list@, p, i as int);
        }
        if !mod_list[i].as_str().is_empty() {
            r.push(mod_list[i].clone());
        }
        i += 1;
    }
    assert(mod_list@.take(mod_list@.len() as int) =~= mod_list@);
    r
}

/// The file name of a game download:
/// `vs_<program>_<os>-x64_<version><extension>` (Windows:
/// `vs_server_win`, `vs_install_win` or `vs_update_win`); `.tar.gz` for
/// Linux and macOS, `.zip` for a Windows server, `.exe` for a Windows client.
pub open spec fn download_file_name(
    os: VSOSType,
    exe: VSExecutabletype,
    win_installer: Option<VSWinInstallerType>,
    game_version: Seq<char>,
) -> Seq<char> {
    let program = match exe {
        VSExecutabletype::Client => "client"@,
        VSExecutabletype::Server => "server"@,
    };
    let kind = if os == VSOSType::Windows {
        if exe == VSExecutabletype::Server {
            "server_win"@
        } else {
            (match win_installer {
                Some(VSWinInstallerType::Update) => "update_"@,
                _ => "install_"@,
            }) + "win"@
        }
    } else {
        program + "_"@ + os.name()
    };
    let ext = if os == VSOSType::OSX || os == VSOSType::Linux {
        ".tar.gz"@
    } else if exe == VSExecutabletype::Server {
        ".zip"@
    } else {
        ".exe"@
    };
    "vs_"@ + kind + "-x64_"@ + game_version + ext
}

/// The download server of a release channel.
pub open spec fn mirror_base(m: VSMirrorType) -> Seq<char> {
    match m {
        VSMirrorType::Stable => "https://cdn.vintagestory.at/gamefiles/stable"@,
        VSMirrorType::Unstable => "https://cdn.vintagestory.at/gamefiles/unstable"@,
    }
}

/// The address and file name of a game download (see
/// `download_file_name`); it never fails.
pub fn download_uri(
    os_type: &VSOSType,
    exe_type: &VSExecutabletype,
    vsmirror_type: &VSMirrorType,
    game_version: &str,
    win_installer: Option<&VSWinInstallerType>,
) -> (r: Result<(String, String), RustiqueError>)
    ensures
        r matches Ok(p) && p.1@ == download_file_name(
            *os_type,
            *exe_type,
            match win_installer {
                Some(w) => Some(*w),
                None => None,
            },
            game_version@,
        ) && p.0@ == mirror_base(*vsmirror_type) + "/"@ + p.1@,
{
    let mut name = "vs_".to_string();
    let etype = match exe_type {
        VSExecutabletype::Client => "client",
        VSExecutabletype::Server => "server",
    };
    match os_type {
        VSOSType::Windows => {
            match exe_type {
                VSExecutabletype::Server => {
                    name.push_str("server_win");
                },
                VSExecutabletype::Client => {
                    match win_installer {
                        Some(VSWinInstallerType::Update) => name.push_str("update_"),
                        _ => name.push_str("install_"),
                    }
                    name.push_str("win");
                },
            }
        },
        _ => {
            name.push_str(etype);
            name.push_str("_");
            name.push_str(os_type.as_str());
        },
    }
    name.push_str("-x64_");
    name.push_str(game_version);
    match os_type {
        VSOSType::OSX | VSOSType::Linux => name.push_str(".tar.gz"),
        VSOSType::Windows => match exe_type {
            VSExecutabletype::Server => name.push_str(".zip"),
            VSExecutabletype::Client => name.push_str(".exe"),
        },
    }
    let mut uri = match vsmirror_type {
        VSMirrorType::Stable => "https://cdn.vintagestory.at/gamefiles/stable".to_string(),
        VSMirrorType::Unstable => "https://cdn.vintagestory.at/gamefiles/unstable".to_string(),
    };
    uri.push_str("/");
    uri.push_str(name.as_str());
    proof {
        assert(name@ =~= download_file_name(
            *os_type,
            *exe_type,
            match win_installer {
                Some(w) => Some(*w),
                None => None,
            },
            game_version@,
        ));
    }
    Ok((uri, name))
}

// ---------------------------------------------------------------------------
// Updating Rustique itself
// ---------------------------------------------------------------------------

/// The address of an endpoint of the releases of Rustique.
pub fn github_api_url(endpoint: &str) -> (r: String)
    ensures
        r@ == "https://api.github.com/repos/Tekunogosu/Rustique/releases"@ + "/"@ + endpoint@,
{
    let mut r = "https://api.github.com/repos/Tekunogosu/Rustique/releases".to_string();
    r.push_str("/");
    r.push_str(endpoint);
    r
}

/// Whether the latest release is newer than the running version; an error
/// when either is not a version.
pub fn update_available(latest_tag: &str, current: &str) -> (r: Result<bool, RustiqueError>)
    ensures
        r is Ok <==> parses(latest_tag@) && parses(current@),
        r matches Ok(b) ==> b == (version_order(parsed(latest_tag@), parsed(current@))
            == std::cmp::Ordering::Greater),
{
    match compare_versions(latest_tag, current) {
        Ok(o) => Ok(
            match o {
                std::cmp::Ordering::Greater => true,
                _ => false,
            },
        ),
        Err(e) => Err(e),
    }
}

/// The archive entry is the binary: its name, or a path ending in `/name`.
pub open spec fn entry_is_binary(entry: Seq<char>, binary: Seq<char>) -> bool {
    entry == binary || (entry.len() > binary.len() && entry.subrange(
        entry.len() - binary.len() - 1,
        entry.len() as int,
    ) == seq!['/'] + binary)
}

fn ends_with_slash_name(entry: &str, binary: &str) -> (r: bool)
    ensures
        r == (entry@.len() > binary@.len() && entry@.subrange(
            entry@.len() - binary@.len() - 1,
            entry@.len() as int,
        ) == seq!['/'] + binary@),
{
    let e = crate::text::str_chars(entry);
    let b = crate::text::str_chars(binary);
    if e.len() <= b.len() {
        return false;
    }
    let start = e.len() - b.len() - 1;
    if e[start] != '/' {
        assert(entry@.subrange(start as int, entry@.len() as int)[0] != (seq!['/'] + binary@)[0]);
        return false;
    }
    let mut k: usize = 0;
    while k < b.len()
        invariant
            e@ == entry@,
            b@ == binary@,
            e.len() > b.len(),
            start == e.len() - b.len() - 1,
            k <= b.len(),
            e@[start as int] == '/',
            forall|j: int| 0 <= j < k ==> e@[start + 1 + j] == b@[j],
        decreases b.len() - k,
    {
        if e[start + 1 + k] != b[k] {
            assert(entry@.subrange(start as int, entry@.len() as int)[k + 1] != (seq!['/']
                + binary@)[k + 1]);
            return false;
        }
        k += 1;
    }
    assert(entry@.subrange(start as int, entry@.len() as int) =~= seq!['/'] + binary@);
    true
}

/// Where the binary stands among the entries of an archive (the first that
/// is it, see `entry_is_binary`); an error naming it when none is.
pub fn binary_entry_index(entries: &Vec<String>, binary: &str) -> (r: Result<usize, RustiqueError>)
    ensures
        match r {
            Ok(i) => i < entries@.len() && entry_is_binary(entries@[i as int]@, binary@) && forall|j: int|
                0 <= j < i ==> !entry_is_binary(#[trigger] entries@[j]@, binary@),
            Err(e) => (forall|j: int|
                0 <= j < entries@.len() ==> !entry_is_binary(#[trigger] entries@[j]@, binary@)) && (e matches RustiqueError::SimpleError(
                m,
            ) && m@ == "Failed to locate "@ + binary@ + " in zip"@),
        },
{
    let mut i: usize = 0;
    while i < entries.len()
        invariant
            i <= entries@.len(),
            forall|j: int| 0 <= j < i ==> !entry_is_binary(#[trigger] entries@[j]@, binary@),
        decreases entries.len() - i,
    {
        let name = entries[i].as_str();
        if str_eq(name, binary) || ends_with_slash_name(name, binary) {
            return Ok(i);
        }
        i += 1;
    }
    let mut m = "Failed to locate ".to_string();
    m.push_str(binary);
    m.push_str(" in zip");
    Err(RustiqueError::SimpleError(m))
}

/// The files of a self update.
#[derive(Debug)]
pub struct RustiqueUpdater {
    pub new_binary_name: String,
    pub current_binary_path: String,
    pub temp_dir: String,
    pub downloaded_path: String,
}


/// The platforms Rustique is released for.
pub open spec fn supported_platform(os: Seq<char>, arch: Seq<char>) -> bool {
    (os == "linux"@ && (arch == "x86_64"@ || arch == "aarch64"@)) || (os == "macos"@ && (arch
        == "x86_64"@ || arch == "aarch64"@)) || (os == "windows"@ && arch == "x86_64"@)
}

/// Whether Rustique is released for the platform.
pub fn is_supported_platform(os: &str, arch: &str) -> (r: bool)
    ensures
        r == supported_platform(os@, arch@),
{
    (str_eq(os, "linux") && (str_eq(arch, "x86_64") || str_eq(arch, "aarch64"))) || (str_eq(os, "macos") && (
    str_eq(arch, "x86_64") || str_eq(arch, "aarch64"))) || (str_eq(os, "windows") && str_eq(
        arch,
        "x86_64",
    ))
}

/// The name of the release archive of Rustique for a platform:
/// `rustique-<os>-<arch>`.
pub fn platform_bin_name(os: &str, arch: &str) -> (r: String)
    requires
        supported_platform(os@, arch@),
    ensures
        r@ == "rustique-"@ + os@ + "-"@ + arch@,
{
    let mut r = "rustique-".to_string();
    r.push_str(os);
    r.push_str("-");
    r.push_str(arch);
    r
}

/// A self update is due unless the latest release is the running version
/// (a forced update compares against `0.0.0` and always goes on).
pub open spec fn self_update_due(latest: crate::version::VersionParts, current: crate::version::VersionParts, force: bool) -> bool {
    force || latest != current
}

/// Whether to go on with a self update; an error when the latest tag or the
/// running version is not a version.
pub fn self_update_needed(latest_tag: &str, running: &str, force: bool) -> (r: Result<bool, RustiqueError>)
    ensures
        r is Ok <==> parses(latest_tag@) && parses(if force { "0.0.0"@ } else { running@ }),
        r matches Ok(b) ==> b == self_update_due(
            parsed(latest_tag@),
            parsed(if force { "0.0.0"@ } else { running@ }),
            force,
        ),
{
    let latest = match crate::version::parse_version(latest_tag) {
        Ok(v) => v,
        Err(e) => {
            return Err(e);
        },
    };
    let current_text = if force { "0.0.0" } else { running };
    let current = match crate::version::parse_version(current_text) {
        Ok(v) => v,
        Err(e) => {
            return Err(e);
        },
    };
    let same = latest.major == current.major && latest.minor == current.minor && latest.patch
        == current.patch && str_eq(latest.pre.as_str(), current.pre.as_str()) && str_eq(
        latest.build.as_str(),
        current.build.as_str(),
    );
    Ok(force || !same)
}

/// The download of the release asset with the given name (the first one).
pub fn asset_url(assets: &Vec<(String, String)>, archive_name: &str) -> (r: Option<String>)
    ensures
        match r {
            Some(u) => crate::keyed::first_value(assets@, archive_name@) == Some(u),
            None => crate::keyed::first_value(assets@, archive_name@) is None,
        },
{
    match crate::keyed::first_value_of(assets, archive_name) {
        Some(u) => Some(u.clone()),
        None => None,
    }
}

} // verus!
