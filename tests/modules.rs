use rustyuploader::config::{Config, ConfigData};
use rustyuploader::json;
use rustyuploader::lot::collection::{Collection, RawEvent, Received, Wait};
use rustyuploader::sandbox::{
    active_version, parse_response_status, remote_address, version_error, versioned_address, Status,
};
use rustyuploader::text::{contains_str, is_file_name, slash_count, strip_all, strip_prefix_text, to_slashes};
use rustyuploader::time::Time;
use rustyuploader::upload::{Action, Step, Uploader};

fn strings(items: &[&str]) -> Vec<String> {
    items.iter().map(|s| s.to_string()).collect()
}

fn config(cartridges: Option<Vec<String>>) -> Config {
    Config {
        hostname: "dev.example.com".to_string(),
        username: "user".to_string(),
        password: "SECRET-REDACTED".to_string(),
        cartridges_path: "/work/carts".to_string(),
        cartridges,
        ignore_list: Some(strings(&["node_modules"])),
        code_version: "v1".to_string(),
    }
}

#[test]
fn config_getters() {
    let c = config(None);
    assert_eq!(c.get_hostname(), "dev.example.com");
    assert_eq!(c.get_username(), "user");
    assert_eq!(c.get_cartridges_path(), "/work/carts");
    assert_eq!(c.get_code_version(), "v1");
    assert!(c.get_cartridges().is_empty());
    assert_eq!(c.get_ignore_list(), &strings(&["node_modules"])[..]);
}

#[test]
fn json_config_getters() {
    let c = json::Config {
        hostname: "h".to_string(),
        username: "u".to_string(),
        password: "p".to_string(),
        cartridges_path: "/c".to_string(),
        cartridges: Some(strings(&["a", "b"])),
        ignore_list: None,
        code_version: "v".to_string(),
    };
    assert_eq!(c.get_hostname(), "h");
    assert_eq!(c.get_password(), "p");
    assert_eq!(c.get_cartridges(), strings(&["a", "b"]));
    assert!(c.get_ignore_list().is_empty());
}

#[test]
fn uploader_uses_listed_cartridges_and_default_url() {
    let u = Uploader::new_from_config(config(Some(strings(&["app_a"]))), None, strings(&["found"]));
    assert_eq!(u.get_cartridges(), &strings(&["app_a"]));
    assert_eq!(u.sandbox_url, "https://dev.example.com/on/demandware.servlet/webdav/Sites/Cartridges");
    assert_eq!(u.ignore_list, strings(&["node_modules"]));
    assert_eq!(u.get_actions().len(), 6);
    assert!(matches!(u.get_actions()[0], Action::Zip));
    assert!(matches!(u.get_actions()[5], Action::DeleteZip));
}

#[test]
fn uploader_falls_back_to_found_cartridges_and_given_url() {
    let u = Uploader::new_from_config(config(Some(vec![])), Some("https://x/y".to_string()), strings(&["found"]));
    assert_eq!(u.get_cartridges(), &strings(&["found"]));
    assert_eq!(u.sandbox_url, "https://x/y");
}

#[test]
fn cartridge_paths() {
    let u = Uploader::new_from_config(config(None), None, vec![]);
    let c = u.init_cartridge_upload("app_a").unwrap();
    assert_eq!(c.get_name(), "app_a");
    assert_eq!(c.get_local_path(), "/work/carts/app_a");
    assert_eq!(c.get_remote_path(), "/app_a");
    assert_eq!(c.get_remote_zip_path(), "/app_a.zip");
    assert!(c.get_cartridge_zip().is_none());
}

#[test]
fn push_steps_follow_the_action() {
    let u = Uploader::new_from_config(config(None), None, vec![]);
    let mut c = u.init_cartridge_upload("app_a");
    match u.push_cartridge(&Action::Zip, &c).unwrap() {
        Step::Zip { local_path, name, ignore_list } => {
            assert_eq!(local_path, "/work/carts/app_a");
            assert_eq!(name, "app_a");
            assert_eq!(ignore_list, strings(&["node_modules"]));
        }
        other => panic!("unexpected step {:?}", other),
    }
    assert_eq!(
        u.push_cartridge(&Action::SendZip, &c).unwrap_err(),
        "Zip cartridge is empty! It should be zipped first."
    );
    c.as_mut().unwrap().set_cartridge_zip(vec![1, 2, 3]);
    match u.push_cartridge(&Action::SendZip, &c).unwrap() {
        Step::Send { zip, remote_path } => {
            assert_eq!(zip, vec![1, 2, 3]);
            assert_eq!(remote_path, "/app_a.zip");
        }
        other => panic!("unexpected step {:?}", other),
    }
    assert!(matches!(u.push_cartridge(&Action::DeleteZip, &c).unwrap(), Step::Delete(p) if p == "/app_a.zip"));
    assert!(matches!(u.push_cartridge(&Action::DeleteFolder, &c).unwrap(), Step::Delete(p) if p == "/app_a"));
    assert!(matches!(u.push_cartridge(&Action::Unzip, &c).unwrap(), Step::Unzip(p) if p == "/app_a.zip"));
}

#[test]
fn push_without_cartridge_fails() {
    let u = Uploader::new_from_config(config(None), None, vec![]);
    assert_eq!(
        u.push_cartridge(&Action::Unzip, &None).unwrap_err(),
        "Please initialize cartridge upload first! Run 'init_cartridge_upload()'"
    );
}

fn outcome(code: u16, what: &str) -> Result<Status, String> {
    parse_response_status(code, what, "https://h/x", "418 I'm a teapot", "1.2.3.4:443")
}

#[test]
fn status_codes_map_to_outcomes() {
    let ok = outcome(201, "send file").unwrap();
    assert_eq!(ok.status, Ok(201));
    assert_eq!(ok.message, "success");
    let unauthorized = outcome(401, "wrong username or password!").unwrap();
    assert_eq!(unauthorized.status, Err(401));
    assert_eq!(unauthorized.message, "Unauthorized call! wrong username or password!");
    let forbidden = outcome(403, "send file").unwrap();
    assert_eq!(forbidden.message, "Forbidden!, You don't have permission to send file !");
    assert_eq!(outcome(404, "x").unwrap().message, "Resource no longer exist");
    assert_eq!(outcome(409, "x").unwrap().status, Err(409));
    assert_eq!(outcome(502, "x").unwrap().message, "Bad Gateway, Server refuses to accept the resource.");
    assert_eq!(outcome(507, "x").unwrap().status, Err(507));
    assert_eq!(
        outcome(418, "x").unwrap_err(),
        "Request failed\nUrl: https://h/x\nStatus: 418 I'm a teapot\nAddress: 1.2.3.4:443"
    );
}

#[test]
fn status_constructors() {
    let s = Status::success(200, "fine");
    assert_eq!(s.status, Ok(200));
    assert_eq!(s.message, "fine");
    let e = Status::error(500, "bad");
    assert_eq!(e.status, Err(500));
}

#[test]
fn version_file_seventh_line() {
    let text = "l0\nl1\nl2\nl3\nl4\nl5\nversion_7/extra/stuff\nl7\n";
    assert_eq!(active_version(text), Some("version_7".to_string()));
    assert_eq!(active_version("a\nb\nc\nd\ne\nf\nlast"), Some("last".to_string()));
    assert_eq!(active_version("a\nb\nc\nd\ne\nf"), None);
    assert_eq!(active_version(""), None);
}

#[test]
fn remote_addresses() {
    assert_eq!(remote_address("https://h/C", "/.version"), "https://h/C/.version");
    assert_eq!(versioned_address("https://h/C", "v1", "/a.zip"), "https://h/C/v1/a.zip");
}

#[test]
fn time_of_day() {
    let t = Time::new();
    let p = t.at(86400 * 3 + 3600 * 5 + 60 * 7 + 9);
    assert_eq!((p.get_hours(), p.get_minutes(), p.get_seconds()), (5, 7, 9));
    assert_eq!(p.get_time(), "05:07:09 (UTC)");
    assert_eq!(t.at(86399).get_time(), "23:59:59 (UTC)");
    let now = t.current().unwrap();
    assert!(now.get_hours() < 24 && now.get_minutes() < 60 && now.get_seconds() < 60);
}

#[test]
fn text_helpers() {
    assert!(contains_str("/a/node_modules/b", "node_modules"));
    assert!(!contains_str("/a/b", "node_modules"));
    assert!(contains_str("abc", ""));
    assert_eq!(strip_all("/base/x/base/y", "/base"), "/x/y");
    assert_eq!(strip_all("aaa", "aa"), "a");
    assert_eq!(strip_all("abc", ""), "abc");
    assert_eq!(to_slashes("a\\b\\c"), "a/b/c");
    assert!(is_file_name("a.b/c.d"));
    assert!(!is_file_name("a.b/c"));
    assert!(!is_file_name(""));
    assert_eq!(slash_count("/a/b/c"), 3);
    assert_eq!(strip_prefix_text("/base/x/base/y", "/base"), "/x/base/y");
    assert_eq!(strip_prefix_text("/other/y", "/base"), "/other/y");
    assert_eq!(strip_prefix_text("abc", ""), "abc");
}

#[test]
fn burst_ends_with_a_snapshot() {
    let mut c = Collection::init("/w", vec![], vec![]);
    let (snap, next) = c.on_received(Received::Event(RawEvent::Write("/w/a.txt".to_string())));
    assert!(snap.is_none() && next == Wait::Poll);
    let (snap, next) = c.on_received(Received::Idle);
    assert!(next == Wait::Block);
    assert_eq!(snap.unwrap().upload.unwrap()[0].rel_path, "/a.txt");
    let (snap, next) = c.on_received(Received::Closed);
    assert!(snap.is_none() && next == Wait::Stop);
}

#[test]
fn refused_version_request_report() {
    assert_eq!(
        version_error("Resource no longer exist", 404),
        "Error checking current active version: Resource no longer exist, Status: 404"
    );
    assert_eq!(version_error("x", 7), "Error checking current active version: x, Status: 7");
    assert_eq!(version_error("", 65535), "Error checking current active version: , Status: 65535");
}
