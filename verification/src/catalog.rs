//! The catalog of known browser channels and their profile-root locations.
//!
//! Each supported channel maps, per platform, to a fixed path below the
//! platform's user-data base directory. The table is pure data: the verified
//! functions here compute the exact path string, and only the resolution of
//! the base directory itself consults the host environment.

use crate::probe;
use vstd::prelude::*;
use vstd::string::StringExecFns;

verus! {

/// One browser distribution channel whose profile layout the catalog knows.
#[derive(Clone, Copy, Debug, PartialEq, Eq, Structural)]
pub enum Browser {
    Chrome,
    ChromeBeta,
    ChromeCanary,
    Chromium,
    Opera,
    OperaBeta,
    OperaDev,
    Vivaldi,
    VivaldiSnapshot,
    Edge,
    EdgeBeta,
    EdgeDev,
    EdgeCanary,
    Brave,
    BraveBeta,
    BraveDev,
    BraveNightly,
}

/// A platform whose profile layout the catalog covers.
#[derive(Clone, Copy, Debug, PartialEq, Eq, Structural)]
pub enum Platform {
    Linux,
    Windows,
    MacOs,
}

/// The catalog's fixed enumeration order over the browser channels. The order
/// affects only the order of scan output, never its completeness.
pub open spec fn spec_all_browsers() -> Seq<Browser> {
    seq![
        Browser::Chrome,
        Browser::ChromeBeta,
        Browser::ChromeCanary,
        Browser::Chromium,
        Browser::Opera,
        Browser::OperaBeta,
        Browser::OperaDev,
        Browser::Vivaldi,
        Browser::VivaldiSnapshot,
        Browser::Edge,
        Browser::EdgeBeta,
        Browser::EdgeDev,
        Browser::EdgeCanary,
        Browser::Brave,
        Browser::BraveBeta,
        Browser::BraveDev,
        Browser::BraveNightly,
    ]
}

/// Every known browser channel, in the catalog's enumeration order.
pub fn all_browsers() -> (r: Vec<Browser>)
    ensures
        r@ == spec_all_browsers(),
{
    let mut v: Vec<Browser> = Vec::new();
    v.push(Browser::Chrome);
    v.push(Browser::ChromeBeta);
    v.push(Browser::ChromeCanary);
    v.push(Browser::Chromium);
    v.push(Browser::Opera);
    v.push(Browser::OperaBeta);
    v.push(Browser::OperaDev);
    v.push(Browser::Vivaldi);
    v.push(Browser::VivaldiSnapshot);
    v.push(Browser::Edge);
    v.push(Browser::EdgeBeta);
    v.push(Browser::EdgeDev);
    v.push(Browser::EdgeCanary);
    v.push(Browser::Brave);
    v.push(Browser::BraveBeta);
    v.push(Browser::BraveDev);
    v.push(Browser::BraveNightly);
    proof {
        assert(v@ =~= spec_all_browsers());
    }
    v
}

/// The vendor-specific path suffix for one channel on one platform, starting
/// with a separator, as documented by each browser's installation layout.
pub open spec fn spec_channel_dir(b: Browser, p: Platform) -> Seq<char> {
    match p {
        Platform::Linux => match b {
            Browser::Chrome => "/google-chrome"@,
            Browser::ChromeBeta => "/google-chrome-beta"@,
            Browser::ChromeCanary => "/google-chrome-unstable"@,
            Browser::Chromium => "/chromium"@,
            Browser::Opera => "/opera"@,
            Browser::OperaBeta => "/opera-beta"@,
            Browser::OperaDev => "/opera-developer"@,
            Browser::Vivaldi => "/vivaldi"@,
            Browser::VivaldiSnapshot => "/vivaldi-snapshot"@,
            Browser::Edge => "/microsoft-edge"@,
            Browser::EdgeBeta => "/microsoft-edge-beta"@,
            Browser::EdgeDev => "/microsoft-edge-dev"@,
            Browser::EdgeCanary => "/microsoft-edge-unstable"@,
            Browser::Brave => "/BraveSoftware/Brave-Browser"@,
            Browser::BraveBeta => "/BraveSoftware/Brave-Browser-Beta"@,
            Browser::BraveDev => "/BraveSoftware/Brave-Browser-Dev"@,
            Browser::BraveNightly => "/BraveSoftware/Brave-Browser-Nightly"@,
        },
        Platform::Windows => match b {
            Browser::Chrome => "/Google/Chrome"@,
            Browser::ChromeBeta => "/Google/Chrome Beta"@,
            Browser::ChromeCanary => "/Google/Chrome SxS"@,
            Browser::Chromium => "/Chromium"@,
            Browser::Opera => "/Opera"@,
            Browser::OperaBeta => "/Opera Beta"@,
            Browser::OperaDev => "/Opera Developer"@,
            Browser::Vivaldi => "/Vivaldi"@,
            Browser::VivaldiSnapshot => "/Vivaldi Snapshot"@,
            Browser::Edge => "/Microsoft/Edge"@,
            Browser::EdgeBeta => "/Microsoft/Edge Beta"@,
            Browser::EdgeDev => "/Microsoft/Edge Dev"@,
            Browser::EdgeCanary => "/Microsoft/Edge SxS"@,
            Browser::Brave => "/BraveSoftware/Brave-Browser"@,
            Browser::BraveBeta => "/BraveSoftware/Brave-Browser-Beta"@,
            Browser::BraveDev => "/BraveSoftware/Brave-Browser-Dev"@,
            Browser::BraveNightly => "/BraveSoftware/Brave-Browser-Nightly"@,
        },
        Platform::MacOs => match b {
            Browser::Chrome => "/Google/Chrome"@,
            Browser::ChromeBeta => "/Google/Chrome Beta"@,
            Browser::ChromeCanary => "/Google/Chrome Canary"@,
            Browser::Chromium => "/Chromium"@,
            Browser::Opera => "/Opera"@,
            Browser::OperaBeta => "/Opera Beta"@,
            Browser::OperaDev => "/Opera Developer"@,
            Browser::Vivaldi => "/Vivaldi"@,
            Browser::VivaldiSnapshot => "/Vivaldi Snapshot"@,
            Browser::Edge => "/Microsoft Edge"@,
            Browser::EdgeBeta => "/Microsoft Edge Beta"@,
            Browser::EdgeDev => "/Microsoft Edge Dev"@,
            Browser::EdgeCanary => "/Microsoft Edge Canary"@,
            Browser::Brave => "/BraveSoftware/Brave-Browser"@,
            Browser::BraveBeta => "/BraveSoftware/Brave-Browser-Beta"@,
            Browser::BraveDev => "/BraveSoftware/Brave-Browser-Dev"@,
            Browser::BraveNightly => "/BraveSoftware/Brave-Browser-Nightly"@,
        },
    }
}

/// The trailing segment some platforms append below the vendor directory.
pub open spec fn spec_platform_tail(p: Platform) -> Seq<char> {
    match p {
        Platform::Windows => "/User Data"@,
        Platform::Linux => Seq::<char>::empty(),
        Platform::MacOs => Seq::<char>::empty(),
    }
}

/// Where one channel keeps its profiles, below a given user-data base
/// directory.
pub open spec fn spec_profile_root(b: Browser, p: Platform, base: Seq<char>) -> Seq<char> {
    base + spec_channel_dir(b, p) + spec_platform_tail(p)
}

fn channel_dir(b: Browser, p: Platform) -> (r: &'static str)
    ensures
        r@ == spec_channel_dir(b, p),
{
    match p {
        Platform::Linux => match b {
            Browser::Chrome => "/google-chrome",
            Browser::ChromeBeta => "/google-chrome-beta",
            Browser::ChromeCanary => "/google-chrome-unstable",
            Browser::Chromium => "/chromium",
            Browser::Opera => "/opera",
            Browser::OperaBeta => "/opera-beta",
            Browser::OperaDev => "/opera-developer",
            Browser::Vivaldi => "/vivaldi",
            Browser::VivaldiSnapshot => "/vivaldi-snapshot",
            Browser::Edge => "/microsoft-edge",
            Browser::EdgeBeta => "/microsoft-edge-beta",
            Browser::EdgeDev => "/microsoft-edge-dev",
            Browser::EdgeCanary => "/microsoft-edge-unstable",
            Browser::Brave => "/BraveSoftware/Brave-Browser",
            Browser::BraveBeta => "/BraveSoftware/Brave-Browser-Beta",
            Browser::BraveDev => "/BraveSoftware/Brave-Browser-Dev",
            Browser::BraveNightly => "/BraveSoftware/Brave-Browser-Nightly",
        },
        Platform::Windows => match b {
            Browser::Chrome => "/Google/Chrome",
            Browser::ChromeBeta => "/Google/Chrome Beta",
            Browser::ChromeCanary => "/Google/Chrome SxS",
            Browser::Chromium => "/Chromium",
            Browser::Opera => "/Opera",
            Browser::OperaBeta => "/Opera Beta",
            Browser::OperaDev => "/Opera Developer",
            Browser::Vivaldi => "/Vivaldi",
            Browser::VivaldiSnapshot => "/Vivaldi Snapshot",
            Browser::Edge => "/Microsoft/Edge",
            Browser::EdgeBeta => "/Microsoft/Edge Beta",
            Browser::EdgeDev => "/Microsoft/Edge Dev",
            Browser::EdgeCanary => "/Microsoft/Edge SxS",
            Browser::Brave => "/BraveSoftware/Brave-Browser",
            Browser::BraveBeta => "/BraveSoftware/Brave-Browser-Beta",
            Browser::BraveDev => "/BraveSoftware/Brave-Browser-Dev",
            Browser::BraveNightly => "/BraveSoftware/Brave-Browser-Nightly",
        },
        Platform::MacOs => match b {
            Browser::Chrome => "/Google/Chrome",
            Browser::ChromeBeta => "/Google/Chrome Beta",
            Browser::ChromeCanary => "/Google/Chrome Canary",
            Browser::Chromium => "/Chromium",
            Browser::Opera => "/Opera",
            Browser::OperaBeta => "/Opera Beta",
            Browser::OperaDev => "/Opera Developer",
            Browser::Vivaldi => "/Vivaldi",
            Browser::VivaldiSnapshot => "/Vivaldi Snapshot",
            Browser::Edge => "/Microsoft Edge",
            Browser::EdgeBeta => "/Microsoft Edge Beta",
            Browser::EdgeDev => "/Microsoft Edge Dev",
            Browser::EdgeCanary => "/Microsoft Edge Canary",
            Browser::Brave => "/BraveSoftware/Brave-Browser",
            Browser::BraveBeta => "/BraveSoftware/Brave-Browser-Beta",
            Browser::BraveDev => "/BraveSoftware/Brave-Browser-Dev",
            Browser::BraveNightly => "/BraveSoftware/Brave-Browser-Nightly",
        },
    }
}

impl Browser {
    /// The profile root for this channel on platform `p`, computed from a
    /// caller-supplied user-data base directory.
    pub fn profile_root(self, p: Platform, base: &str) -> (r: String)
        ensures
            r@ == spec_profile_root(self, p, base@),
    {
        let mut r = base.to_owned();
        r.append(channel_dir(self, p));
        match p {
            Platform::Windows => r.append("/User Data"),
            Platform::Linux => (),
            Platform::MacOs => (),
        }
        proof {
            assert(r@ =~= spec_profile_root(self, p, base@));
        }
        r
    }

    /// The profile root for this channel on platform `p`, resolved against the
    /// host's user-data base directory. `None` when that base directory cannot
    /// be resolved; the channel is then skipped, which is not an error.
    pub fn get_profile_root(self, p: Platform) -> (r: Option<String>)
        ensures
            r matches Some(root) ==> exists|base: Seq<char>|
                root@ == spec_profile_root(self, p, base),
    {
        let base = match p {
            Platform::Linux => probe::data_root_user_config(),
            Platform::Windows => probe::data_root_user_data(),
            Platform::MacOs => probe::data_root_user_data(),
        };
        match base {
            Some(b) => {
                let root = self.profile_root(p, b.as_str());
                proof {
                    assert(root@ == spec_profile_root(self, p, b@));
                }
                Some(root)
            }
            None => None,
        }
    }
}

} // verus!
