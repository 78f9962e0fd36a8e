use extension_audit::catalog::{all_browsers, Browser, Platform};

#[test]
fn linux_paths_follow_the_documented_layout() {
    let base = "/home/rusty/.config";
    assert_eq!(
        Browser::Chrome.profile_root(Platform::Linux, base),
        "/home/rusty/.config/google-chrome"
    );
    assert_eq!(
        Browser::ChromeCanary.profile_root(Platform::Linux, base),
        "/home/rusty/.config/google-chrome-unstable"
    );
    assert_eq!(
        Browser::OperaDev.profile_root(Platform::Linux, base),
        "/home/rusty/.config/opera-developer"
    );
    assert_eq!(
        Browser::Brave.profile_root(Platform::Linux, base),
        "/home/rusty/.config/BraveSoftware/Brave-Browser"
    );
    assert_eq!(
        Browser::EdgeCanary.profile_root(Platform::Linux, base),
        "/home/rusty/.config/microsoft-edge-unstable"
    );
}

#[test]
fn windows_paths_append_user_data() {
    let base = "C:/Users/Rusty/AppData/Local";
    assert_eq!(
        Browser::Chrome.profile_root(Platform::Windows, base),
        "C:/Users/Rusty/AppData/Local/Google/Chrome/User Data"
    );
    assert_eq!(
        Browser::ChromeCanary.profile_root(Platform::Windows, base),
        "C:/Users/Rusty/AppData/Local/Google/Chrome SxS/User Data"
    );
    assert_eq!(
        Browser::BraveNightly.profile_root(Platform::Windows, base),
        "C:/Users/Rusty/AppData/Local/BraveSoftware/Brave-Browser-Nightly/User Data"
    );
    assert_eq!(
        Browser::Vivaldi.profile_root(Platform::Windows, base),
        "C:/Users/Rusty/AppData/Local/Vivaldi/User Data"
    );
}

#[test]
fn macos_paths_have_no_user_data_tail() {
    let base = "/Users/rusty/Library/Application Support";
    assert_eq!(
        Browser::ChromeCanary.profile_root(Platform::MacOs, base),
        "/Users/rusty/Library/Application Support/Google/Chrome Canary"
    );
    assert_eq!(
        Browser::Edge.profile_root(Platform::MacOs, base),
        "/Users/rusty/Library/Application Support/Microsoft Edge"
    );
    assert_eq!(
        Browser::BraveDev.profile_root(Platform::MacOs, base),
        "/Users/rusty/Library/Application Support/BraveSoftware/Brave-Browser-Dev"
    );
}

#[test]
fn catalog_enumerates_every_channel_once_in_order() {
    let all = all_browsers();
    assert_eq!(all.len(), 17);
    assert_eq!(all[0], Browser::Chrome);
    assert_eq!(all[3], Browser::Chromium);
    assert_eq!(all[16], Browser::BraveNightly);
    for (i, a) in all.iter().enumerate() {
        for (j, b) in all.iter().enumerate() {
            if i != j {
                assert!(a != b);
            }
        }
    }
}
