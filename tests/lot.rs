use rustyuploader::lot::collection::{Collection, RawEvent};
use rustyuploader::lot::data::Data;

#[test]
fn split_folders_files() {
    let mut some_data = Data::new("");
    let mut vec = vec![];
    vec.push("/folder/folder_2/folder_3/some_file.txt".to_owned());
    vec.push("/folder/folder_2/folder_3".to_owned());
    vec.push("/folder/folder_2/folder_3/".to_owned());
    vec.push("/folder/folder_2/folder_3/test_again/with_folder".to_owned());
    vec.push("/folder/folder_2".to_owned());
    vec.push("/folder/folder_test/folder_3/some_file_2.txt".to_owned());

    some_data.remove = Some(vec);

    let mut test_data_folders = vec![];
    test_data_folders.push("/folder/folder_2/folder_3".to_owned());
    test_data_folders.push("/folder/folder_2/folder_3/".to_owned());
    test_data_folders.push("/folder/folder_2/folder_3/test_again/with_folder".to_owned());
    test_data_folders.push("/folder/folder_2".to_owned());

    let mut test_data_files = vec![];
    test_data_files.push("/folder/folder_2/folder_3/some_file.txt".to_owned());
    test_data_files.push("/folder/folder_test/folder_3/some_file_2.txt".to_owned());

    assert_eq!(some_data.split_folders_files(), (test_data_folders, test_data_files));
}

#[test]
fn filter_remove() {
    let mut some_data = Data::new("");

    let temp_vec = [
        "/app_canada_layer/cartridge/static/default/dist/css/styleguide.css",
        "/app_canada_layer/cartridge/static/default/dist/css/commons.css.map",
        "/app_canada_layer/cartridge/static/default/dist/javascripts/system.config.js",
        "/app_canada_layer/cartridge/static/default/dist/css/styleguide.css.map",
        "/app_canada_layer/cartridge/static/default/dist/css/commons.css",
        "/app_canada_layer/cartridge/static/default/dist/css",
        "/app_canada_layer/cartridge/static/default/dist/javascripts/vendors/system-csp-production.js",
        "/app_canada_layer/cartridge/static/default/dist/javascripts/vendors/system-polyfills.js",
        "/app_canada_layer/cartridge/static/default/dist/javascripts/vendors/system-polyfills.src.js",
        "/app_canada_layer/cartridge/static/default/dist/javascripts/vendors/system-csp-production.src.js",
        "/app_canada_layer/cartridge/static/default/dist/javascripts/vendors/system.js",
        "/app_canada_layer/cartridge/static/default/dist/javascripts/vendors/system.src.js",
        "/app_canada_layer/cartridge/static/default/dist/javascripts/components/analytics/ImpactRadius.js",
        "/app_canada_layer/cartridge/static/default/dist/javascripts/components/analytics/ImpactRadius.js.map",
        "/app_canada_layer/cartridge/static/default/dist/javascripts/vendors/npm/assert@1.5.0.js",
        "/app_canada_layer/cartridge/static/default/dist/javascripts/vendors/npm/babel-core@5.8.38.js",
        "/app_canada_layer/cartridge/static/default/dist/javascripts/vendors/npm/base64-js@1.3.0.js",
        "/app_canada_layer/cartridge/static/default/dist/javascripts/vendors/npm/buffer@5.2.1.js",
        "/app_canada_layer/cartridge/static/default/dist/javascripts/vendors/npm/core-js@1.2.7.js",
        "/app_canada_layer/cartridge/static/default/dist/javascripts/vendors/npm/ieee754@1.1.13.js",
        "/app_canada_layer/cartridge/static/default/dist/javascripts/vendors/npm/indexof@0.0.1.js",
        "/app_canada_layer/cartridge/static/default/dist/javascripts/vendors/npm/inherits@2.0.1.js",
        "/app_canada_layer/cartridge/static/default/dist/javascripts/vendors/npm/util@0.10.3.js",
        "/app_canada_layer/cartridge/static/default/dist/javascripts/vendors/npm/path-browserify@0.0.0.js",
        "/app_canada_layer/cartridge/static/default/dist/javascripts/vendors/npm/process@0.11.10.js",
        "/app_canada_layer/cartridge/static/default/dist/javascripts/components/account/CanadaPostAutocomplete.js",
        "/app_canada_layer/cartridge/static/default/dist/javascripts/vendors/npm/vm-browserify@0.0.4.js",
        "/app_canada_layer/cartridge/static/default/dist/javascripts/components/account/CanadaPostAutocomplete.js.map",
        "/app_canada_layer/cartridge/static/default/dist/javascripts/vendors/npm/object-assign@4.1.1.js",
        "/app_canada_layer/cartridge/static/default/dist/javascripts/components/analytics",
        "/app_canada_layer/cartridge/static/default/dist/javascripts/components/account",
        "/app_canada_layer/cartridge/static/default/dist/javascripts/templates/global/woahbar.js",
        "/app_canada_layer/cartridge/static/default/dist/javascripts/templates/global/woahbar.js.map",
        "/app_canada_layer/cartridge/static/default/dist/javascripts/vendors/npm",
        "/app_canada_layer/cartridge/static/default/dist/javascripts/components",
        "/app_canada_layer/cartridge/static/default/dist/javascripts/templates/global",
        "/app_canada_layer/cartridge/static/default/dist/javascripts/vendors",
        "/app_canada_layer/cartridge/static/default/dist/javascripts/templates",
        "/app_canada_layer/cartridge/static/default/dist/javascripts",
        "/app_canada_layer/cartridge/static/default/dist",
        "/app_canada_layer/cartridge/templates/handlebars_compiled/components/account/canadapostautocomplete.js",
        "/app_canada_layer/cartridge/templates/handlebars_compiled/components/account",
        "/app_canada_layer/cartridge/templates/handlebars_compiled/components/analytics/impactradius.js",
        "/app_canada_layer/cartridge/templates/handlebars_compiled/components/analytics",
        "/app_canada_layer/cartridge/templates/handlebars_compiled/components/global/woahbar.js",
        "/app_canada_layer/cartridge/templates/handlebars_compiled/components/global",
        "/app_canada_layer/cartridge/templates/handlebars_compiled/components",
        "/app_canada_layer/cartridge/templates/handlebars_compiled",
    ];

    let vec: Vec<String> = temp_vec.into_iter().map(|item| item.to_string()).collect();

    some_data.remove = Some(vec);

    some_data.update();

    let mut test_data = vec![];
    test_data.push("/app_canada_layer/cartridge/templates/handlebars_compiled".to_owned());
    test_data.push("/app_canada_layer/cartridge/static/default/dist".to_owned());

    assert_eq!(some_data.remove.unwrap(), test_data);
}

fn strings(items: &[&str]) -> Vec<String> {
    items.iter().map(|s| s.to_string()).collect()
}

fn rel_paths(data: &Data) -> Vec<String> {
    data.upload.as_ref().unwrap().iter().map(|f| f.rel_path.clone()).collect()
}

#[test]
fn reconcile_drops_nested_folders_and_their_files() {
    let mut data = Data::new("");
    data.remove = Some(strings(&[
        "/a/b/c/file.txt",
        "/a/b/c",
        "/a/b/c/",
        "/a/b/c/d/e",
        "/a/b",
        "/x/y/file2.txt",
    ]));
    data.update();
    assert_eq!(data.remove.unwrap(), strings(&["/a/b", "/x/y/file2.txt"]));
}

#[test]
fn split_of_nested_fixture() {
    let mut data = Data::new("");
    data.remove = Some(strings(&[
        "/a/b/c/file.txt",
        "/a/b/c",
        "/a/b/c/",
        "/a/b/c/d/e",
        "/a/b",
        "/x/y/file2.txt",
    ]));
    let (folders, files) = data.split_folders_files();
    assert_eq!(folders, strings(&["/a/b/c", "/a/b/c/", "/a/b/c/d/e", "/a/b"]));
    assert_eq!(files, strings(&["/a/b/c/file.txt", "/x/y/file2.txt"]));
}

#[test]
fn reconcile_treats_shared_names_as_nested() {
    let mut data = Data::new("");
    data.remove = Some(strings(&["/folder/abcd", "/folder/abc", "/folder/abcd/x.txt", "/other/y.txt"]));
    data.update();
    assert_eq!(data.remove.unwrap(), strings(&["/folder/abcd", "/other/y.txt"]));
}

#[test]
fn reconcile_keeps_discovery_order_at_equal_depth() {
    let mut data = Data::new("");
    data.remove = Some(strings(&["/q/r/s", "/m", "/n", "/m/t.js"]));
    data.update();
    assert_eq!(data.remove.unwrap(), strings(&["/m", "/n", "/q/r/s"]));
}

#[test]
fn reconcile_without_removals_changes_nothing() {
    let mut data = Data::new("/root");
    data.push_write("/root/a.txt");
    data.update();
    assert!(data.remove.is_none());
    assert_eq!(rel_paths(&data), strings(&["/a.txt"]));
}

#[test]
fn reconcile_of_empty_removals_is_empty() {
    let mut data = Data::new("");
    data.remove = Some(vec![]);
    data.update();
    assert_eq!(data.remove.unwrap(), Vec::<String>::new());
}

#[test]
fn write_of_named_file_is_queued() {
    let mut data = Data::new("/home/u/project");
    data.push_write("/home/u/project/cart/style.css");
    let files = data.upload.unwrap();
    assert_eq!(files.len(), 1);
    assert_eq!(files[0].full_path, "/home/u/project/cart/style.css");
    assert_eq!(files[0].rel_path, "/cart/style.css");
}

#[test]
fn creation_of_folder_is_dropped() {
    let mut data = Data::new("/home/u/project");
    data.push_create("/home/u/project/cart/components");
    data.push_write("/home/u/project/cart.d/readme");
    assert!(data.upload.is_none());
}

#[test]
fn backslashes_become_slashes() {
    let mut data = Data::new("C:/work");
    data.push_create("C:\\work\\cart\\app.js");
    let files = data.upload.unwrap();
    assert_eq!(files[0].full_path, "C:/work/cart/app.js");
    assert_eq!(files[0].rel_path, "/cart/app.js");
}

#[test]
fn removal_and_rename_are_relative() {
    let mut data = Data::new("/base");
    data.push_remove("/base/cart/old");
    data.push_remove("/base/cart/old");
    data.push_rename("/base/cart/a.js", "/base/cart/b.js");
    assert_eq!(data.remove.clone().unwrap(), strings(&["/cart/old"]));
    let renames = data.rename.unwrap();
    assert_eq!(renames.len(), 1);
    assert_eq!(renames[0].current, "/cart/a.js");
    assert_eq!(renames[0].new, "/cart/b.js");
}

#[test]
fn reset_clears_everything() {
    let mut data = Data::new("/base");
    data.push_write("/base/a.txt");
    data.push_remove("/base/b");
    data.push_rename("/base/c.txt", "/base/d.txt");
    data.reset();
    assert!(data.upload.is_none() && data.rename.is_none() && data.remove.is_none());
}

#[test]
fn only_filter_keeps_matching_uploads() {
    let mut data = Data::new("/w");
    data.push_write("/w/cartridgeA/a.js");
    data.push_write("/w/cartridgeB/b.js");
    data.filter(&strings(&["cartridgeA"]), "only");
    assert_eq!(rel_paths(&data), strings(&["/cartridgeA/a.js"]));
}

#[test]
fn only_filter_with_no_tokens_keeps_everything() {
    let mut data = Data::new("/w");
    data.push_write("/w/cartridgeA/a.js");
    data.push_write("/w/cartridgeB/b.js");
    data.push_remove("/w/cartridgeB/old");
    data.filter(&vec![], "only");
    assert_eq!(rel_paths(&data), strings(&["/cartridgeA/a.js", "/cartridgeB/b.js"]));
    assert_eq!(data.remove.unwrap(), strings(&["/cartridgeB/old"]));
}

#[test]
fn exclude_filter_drops_from_all_sets() {
    let mut data = Data::new("/w");
    data.push_write("/w/c/node_modules/x.js");
    data.push_write("/w/c/app.js");
    data.push_remove("/w/c/node_modules/y");
    data.push_remove("/w/c/gone");
    data.push_rename("/w/c/node_modules/a.js", "/w/c/b.js");
    data.push_rename("/w/c/p.js", "/w/c/node_modules/q.js");
    data.filter(&strings(&["node_modules"]), "exclude");
    assert_eq!(rel_paths(&data), strings(&["/c/app.js"]));
    assert_eq!(data.remove.clone().unwrap(), strings(&["/c/gone"]));
    let renames = data.rename.unwrap();
    assert_eq!(renames.len(), 1);
    assert_eq!(renames[0].current, "/c/p.js");
}

#[test]
fn filter_leaves_absent_sets_absent() {
    let mut data = Data::new("/w");
    data.filter(&strings(&["x"]), "exclude");
    assert!(data.upload.is_none() && data.rename.is_none() && data.remove.is_none());
}

#[test]
fn second_flush_is_empty() {
    let mut c = Collection::init("/w", strings(&["cart"]), vec![]);
    c.parse_event(RawEvent::Write("/w/cart/a.js".to_string()));
    c.parse_event(RawEvent::Remove("/w/cart/old".to_string()));
    c.parse_event(RawEvent::Rename("/w/cart/b.js".to_string(), "/w/cart/c.js".to_string()));
    let first = c.get_data();
    assert_eq!(rel_paths(&first), strings(&["/cart/a.js"]));
    assert_eq!(first.remove.unwrap(), strings(&["/cart/old"]));
    assert_eq!(first.rename.unwrap().len(), 1);
    let second = c.get_data();
    assert!(second.upload.is_none() && second.rename.is_none() && second.remove.is_none());
}

#[test]
fn burst_of_writes_gives_one_entry() {
    let mut c = Collection::init("/w", vec![], vec![]);
    c.parse_event(RawEvent::Write("/w/cart/a.js".to_string()));
    c.parse_event(RawEvent::Write("/w/cart/a.js".to_string()));
    c.parse_event(RawEvent::Create("/w/cart/a.js".to_string()));
    c.parse_event(RawEvent::Write("/w/cart/b.js".to_string()));
    let snap = c.get_data();
    assert_eq!(rel_paths(&snap), strings(&["/cart/a.js", "/cart/b.js"]));
}

#[test]
fn flush_applies_scope_and_ignore_list() {
    let mut c = Collection::init("/w", strings(&["cartA"]), strings(&["node_modules"]));
    c.parse_event(RawEvent::Write("/w/cartA/a.js".to_string()));
    c.parse_event(RawEvent::Write("/w/cartA/node_modules/m.js".to_string()));
    c.parse_event(RawEvent::Write("/w/cartB/b.js".to_string()));
    c.parse_event(RawEvent::Remove("/w/cartA/dir".to_string()));
    c.parse_event(RawEvent::Remove("/w/cartA/dir/f.txt".to_string()));
    c.parse_event(RawEvent::Other);
    let snap = c.get_data();
    assert_eq!(rel_paths(&snap), strings(&["/cartA/a.js"]));
    assert_eq!(snap.remove.unwrap(), strings(&["/cartA/dir"]));
    assert!(snap.rename.is_none());
}

#[test]
fn other_events_are_ignored() {
    let mut c = Collection::init("/w", vec![], vec![]);
    c.parse_event(RawEvent::Other);
    let snap = c.get_data();
    assert!(snap.upload.is_none() && snap.rename.is_none() && snap.remove.is_none());
}

#[test]
fn only_the_leading_root_is_stripped() {
    let mut data = Data::new("b");
    data.push_write("b/b.txt");
    data.push_write("b/b.txt");
    data.push_remove("b/b");
    data.push_rename("b/b.js", "b/c/b.js");
    assert_eq!(rel_paths(&data), strings(&["/b.txt"]));
    assert_eq!(data.upload.as_ref().unwrap()[0].full_path, "b/b.txt");
    assert_eq!(data.remove.clone().unwrap(), strings(&["/b"]));
    let renames = data.rename.unwrap();
    assert_eq!(renames[0].current, "/b.js");
    assert_eq!(renames[0].new, "/c/b.js");
}

#[test]
fn path_outside_the_root_is_kept_whole() {
    let mut data = Data::new("/root");
    data.push_write("/elsewhere/root/a.txt");
    assert_eq!(rel_paths(&data), strings(&["/elsewhere/root/a.txt"]));
}
