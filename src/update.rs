//! Deciding on an update from a release description: version comparison,
//! the download for a platform, and the resulting update offer. Fetching
//! the release and installing are left to the caller.
use crate::text::{chars_eq, chars_of, push_char};
use vstd::prelude::*;

verus! {

/// A published release.
pub struct GithubRelease {
    pub tag_name: String,
    pub assets: Vec<GithubAsset>,
}

/// One downloadable file of a release.
pub struct GithubAsset {
    pub name: String,
    pub browser_download_url: String,
}

/// An update that can be installed.
pub struct UpdateInfo {
    pub current_version: String,
    pub latest_version: String,
    pub download_url: String,
    pub asset_name: String,
}

/// What the background update check reports.
pub enum UpdateMessage {
    Available(UpdateInfo),
    NotAvailable,
    Error(String),
}

/// The report for the outcome of an update check.
pub fn update_message(outcome: Result<Option<UpdateInfo>, String>) -> (m: UpdateMessage)
    ensures
        match outcome {
            Ok(Some(info)) => m == UpdateMessage::Available(info),
            Ok(None) => m == UpdateMessage::NotAvailable,
            Err(e) => m == UpdateMessage::Error(e),
        },
{
    match outcome {
        Ok(Some(info)) => UpdateMessage::Available(info),
        Ok(None) => UpdateMessage::NotAvailable,
        Err(e) => UpdateMessage::Error(e),
    }
}

/// Whether `semver::Version::parse` accepts a text.
pub uninterp spec fn semver_valid(s: Seq<char>) -> bool;

/// Whether, both texts parsing, `latest` orders after `current` in
/// `semver::Version`'s ordering.
pub uninterp spec fn semver_newer(current: Seq<char>, latest: Seq<char>) -> bool;

/// Relies on `semver::Version::parse` for both texts and on the ordering of
/// `semver::Version`: `None` unless both parse; then whether `latest` is
/// greater.
#[verifier::external_body]
fn semver_compare(current: &str, latest: &str) -> (r: Option<bool>)
    ensures
        match r {
            Some(b) => semver_valid(current@) && semver_valid(latest@) && b == semver_newer(
                current@,
                latest@,
            ),
            None => !(semver_valid(current@) && semver_valid(latest@)),
        },
{
    match (semver::Version::parse(current), semver::Version::parse(latest)) {
        (Ok(c), Ok(l)) => Some(l > c),
        _ => None,
    }
}

/// `s` without its leading `v` characters.
pub open spec fn strip_v(s: Seq<char>) -> Seq<char>
    decreases s.len(),
{
    if s.len() > 0 && s[0] == 'v' {
        strip_v(s.drop_first())
    } else {
        s
    }
}

/// Whether `latest` is newer than `current`, leading `v`s ignored: by
/// semantic versioning when both parse, else whenever the texts differ.
pub open spec fn newer_spec(current: Seq<char>, latest: Seq<char>) -> bool {
    let c = strip_v(current);
    let l = strip_v(latest);
    if semver_valid(c) && semver_valid(l) {
        semver_newer(c, l)
    } else {
        c != l
    }
}

fn without_v(s: &str) -> (r: String)
    ensures
        r@ == strip_v(s@),
{
    let v = chars_of(s);
    let mut i: usize = 0;
    assert(v@.subrange(0, v@.len() as int) =~= v@);
    while i < v.len() && v[i] == 'v'
        invariant
            i <= v@.len(),
            strip_v(v@) == strip_v(v@.subrange(i as int, v@.len() as int)),
        decreases v.len() - i,
    {
        assert(v@.subrange(i as int, v@.len() as int).drop_first() =~= v@.subrange(
            i + 1,
            v@.len() as int,
        ));
        i += 1;
    }
    assert(v@.subrange(0, v@.len() as int) =~= v@);
    let r = crate::text::string_of(&v, i, v.len());
    proof {
        let rest = v@.subrange(i as int, v@.len() as int);
        assert(!(rest.len() > 0 && rest[0] == 'v'));
    }
    r
}

/// Whether `latest` is a newer version than `current`.
pub fn is_newer_version(current: &str, latest: &str) -> (r: bool)
    ensures
        r == newer_spec(current@, latest@),
{
    let c = without_v(current);
    let l = without_v(latest);
    match semver_compare(c.as_str(), l.as_str()) {
        Some(b) => b,
        None => !chars_eq(&chars_of(c.as_str()), &chars_of(l.as_str())),
    }
}

fn text_is(s: &str, lit: &str) -> (r: bool)
    ensures
        r == (s@ == lit@),
{
    chars_eq(&chars_of(s), &chars_of(lit))
}

/// The release file for an operating system and architecture, as named by
/// `std::env::consts::OS` and `ARCH`.
pub open spec fn platform_asset_spec(os: Seq<char>, arch: Seq<char>) -> Option<Seq<char>> {
    if os == "macos"@ && arch == "aarch64"@ {
        Some("xl-darwin-arm64.tar.gz"@)
    } else if os == "macos"@ && arch == "x86_64"@ {
        Some("xl-darwin-x86_64.tar.gz"@)
    } else if os == "linux"@ && arch == "x86_64"@ {
        Some("xl-linux-x86_64.tar.gz"@)
    } else if os == "linux"@ && arch == "aarch64"@ {
        Some("xl-linux-arm64.tar.gz"@)
    } else {
        None
    }
}

/// The release file for a platform, `None` where no build is published.
pub fn get_platform_asset_name(os: &str, arch: &str) -> (r: Option<String>)
    ensures
        match r {
            Some(name) => platform_asset_spec(os@, arch@) == Some(name@),
            None => platform_asset_spec(os@, arch@) is None,
        },
{
    if text_is(os, "macos") && text_is(arch, "aarch64") {
        Some(String::from_str("xl-darwin-arm64.tar.gz"))
    } else if text_is(os, "macos") && text_is(arch, "x86_64") {
        Some(String::from_str("xl-darwin-x86_64.tar.gz"))
    } else if text_is(os, "linux") && text_is(arch, "x86_64") {
        Some(String::from_str("xl-linux-x86_64.tar.gz"))
    } else if text_is(os, "linux") && text_is(arch, "aarch64") {
        Some(String::from_str("xl-linux-arm64.tar.gz"))
    } else {
        None
    }
}

fn find_asset(assets: &Vec<GithubAsset>, name: &str) -> (r: Option<usize>)
    ensures
        match r {
            Some(i) => i < assets@.len() && assets@[i as int].name@ == name@ && forall|j: int|
                0 <= j < i ==> assets@[j].name@ != name@,
            None => forall|j: int| 0 <= j < assets@.len() ==> assets@[j].name@ != name@,
        },
{
    let mut i: usize = 0;
    while i < assets.len()
        invariant
            i <= assets@.len(),
            forall|j: int| 0 <= j < i ==> assets@[j].name@ != name@,
        decreases assets.len() - i,
    {
        if text_is(assets[i].name.as_str(), name) {
            return Some(i);
        }
        i += 1;
    }
    None
}

fn joined(a: &str, b: &str) -> (r: String)
    ensures
        r@ == a@ + b@,
{
    let mut s = String::from_str(a);
    let v = chars_of(b);
    let mut i: usize = 0;
    while i < v.len()
        invariant
            i <= v@.len(),
            s@ == a@ + v@.subrange(0, i as int),
        decreases v.len() - i,
    {
        push_char(&mut s, v[i]);
        assert(v@.subrange(0, i + 1) =~= v@.subrange(0, i as int).push(v@[i as int]));
        i += 1;
    }
    assert(v@.subrange(0, v@.len() as int) =~= b@);
    s
}

/// Decides on an update from the latest release: none when its tag is not
/// newer than `current`; an error when this platform has no build
/// (`platform_asset` is `None`) or the release lacks that file; else the
/// offer of the first asset with that name.
pub fn update_from_release(
    current: &str,
    release: &GithubRelease,
    platform_asset: Option<String>,
) -> (r: Result<Option<UpdateInfo>, String>)
    ensures
        !newer_spec(current@, release.tag_name@) ==> (r matches Ok(None)),
        newer_spec(current@, release.tag_name@) && platform_asset is None ==> (r matches Err(e)
            && e@ == "No compatible binary available for this platform"@),
        newer_spec(current@, release.tag_name@) && platform_asset is Some ==> match r {
            Err(e) => e@ == "No asset found for platform: "@ + platform_asset->0@ && forall|j: int|
                0 <= j < release.assets@.len() ==> release.assets@[j].name@ != platform_asset->0@,
            Ok(Some(info)) => exists|i: int|
                0 <= i < release.assets@.len() && release.assets@[i].name@ == platform_asset->0@
                    && (forall|j: int|
                    0 <= j < i ==> release.assets@[j].name@ != platform_asset->0@)
                    && info.download_url@
                    == release.assets@[i].browser_download_url@ && info.asset_name@
                    == release.assets@[i].name@ && info.current_version@ == current@
                    && info.latest_version@ == release.tag_name@,
            Ok(None) => false,
        },
{
    if !is_newer_version(current, release.tag_name.as_str()) {
        return Ok(None);
    }
    match platform_asset {
        None => Err(String::from_str("No compatible binary available for this platform")),
        Some(p) => match find_asset(&release.assets, p.as_str()) {
            None => Err(joined("No asset found for platform: ", p.as_str())),
            Some(i) => {
                let asset = &release.assets[i];
                Ok(
                    Some(
                        UpdateInfo {
                            current_version: String::from_str(current),
                            latest_version: release.tag_name.clone(),
                            download_url: asset.browser_download_url.clone(),
                            asset_name: asset.name.clone(),
                        },
                    ),
                )
            },
        },
    }
}

} // verus!
