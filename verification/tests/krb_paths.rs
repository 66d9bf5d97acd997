use hdfs_gui_lib::krb::parse_krb5_conf_for_kdc;
use hdfs_gui_lib::krb::select_keytab_key;
use hdfs_gui_lib::krb::split_principal;
use hdfs_gui_lib::krb::username_of_config;
use hdfs_gui_lib::krb::KeytabEntry;
use hdfs_gui_lib::paths::file_name_of_path;
use hdfs_gui_lib::paths::join_path;
use hdfs_gui_lib::paths::local_target_path;
use hdfs_gui_lib::paths::normalize_separators;
use hdfs_gui_lib::paths::parent_path_of;
use hdfs_gui_lib::paths::renamed_path;
use hdfs_gui_lib::paths::trash_target_path;

const SAMPLE_CONF: &str = "\
[libdefaults]\n\
    default_realm = EXAMPLE.COM\n\
\n\
[realms]\n\
    EXAMPLE.COM = {\n\
        kdc = kdc1.example.com\n\
        admin_server = admin.example.com\n\
    }\n\
    OTHER.ORG = {\n\
        kdc = kdc.other.org:88\n\
    }\n";

#[test]
fn kdc_found_for_realm_in_realms_section() {
    let kdc = parse_krb5_conf_for_kdc(SAMPLE_CONF, "EXAMPLE.COM");
    assert_eq!(kdc.as_deref(), Some("kdc1.example.com"));
    let kdc = parse_krb5_conf_for_kdc(SAMPLE_CONF, "OTHER.ORG");
    assert_eq!(kdc.as_deref(), Some("kdc.other.org:88"));
}

#[test]
fn kdc_absent_realm_yields_none() {
    assert_eq!(parse_krb5_conf_for_kdc(SAMPLE_CONF, "MISSING.NET"), None);
    assert_eq!(parse_krb5_conf_for_kdc("", "EXAMPLE.COM"), None);
}

#[test]
fn kdc_outside_realms_section_is_ignored() {
    let conf = "[libdefaults]\nkdc = wrong.example.com\n[realms]\nEXAMPLE.COM = {\nkdc = right.example.com\n}\n";
    assert_eq!(parse_krb5_conf_for_kdc(conf, "EXAMPLE.COM").as_deref(), Some("right.example.com"));
}

#[test]
fn kdc_value_is_stripped_of_quotes() {
    let conf = "[realms]\nR = {\nkdc = \"'quoted.host'\"\n}\n";
    assert_eq!(parse_krb5_conf_for_kdc(conf, "R").as_deref(), Some("quoted.host"));
}

#[test]
fn kdc_search_ends_at_closing_brace() {
    let conf = "[realms]\nA = {\n}\nkdc = stray.example.com\n";
    assert_eq!(parse_krb5_conf_for_kdc(conf, "A"), None);
}

#[test]
fn username_read_from_config_principal() {
    let config = "{\"dfs.namenode.kerberos.principal\": \"alice@EXAMPLE.COM\"}";
    assert_eq!(username_of_config(config).as_deref(), Some("alice"));
    assert_eq!(username_of_config("not json"), None);
    assert_eq!(username_of_config("{\"other\": 1}"), None);
}

#[test]
fn username_absent_when_principal_field_is_not_a_string() {
    assert_eq!(username_of_config("{\"dfs.namenode.kerberos.principal\": 7}"), None);
    // a principal without a realm still yields its user part
    let config = "{\"dfs.namenode.kerberos.principal\": \"justuser\"}";
    assert_eq!(username_of_config(config).as_deref(), Some("justuser"));
}

#[test]
fn principal_splits_at_single_at_sign() {
    let (user, realm) = split_principal("bob@EXAMPLE.COM").unwrap();
    assert_eq!(user, "bob");
    assert_eq!(realm, "EXAMPLE.COM");
    assert!(split_principal("bob").is_err());
    assert!(split_principal("a@b@c").is_err());
}

fn entry(realm: &str, components: &[&str], keytype: u32) -> KeytabEntry {
    KeytabEntry {
        realm: realm.to_string(),
        components: components.iter().map(|c| c.to_string()).collect(),
        keytype,
        keyvalue: vec![keytype as u8, 0xAB],
    }
}

#[test]
fn keytab_selection_takes_first_matching_entry() {
    let entries = vec![
        entry("EXAMPLE.COM", &["other"], 18),
        entry("EXAMPLE.COM", &["nn", "host1"], 18),
        entry("EXAMPLE.COM", &["nn", "host1"], 17),
    ];
    let (t, key) = select_keytab_key(&entries, "nn/host1@EXAMPLE.COM").unwrap();
    assert_eq!(t, 18);
    assert_eq!(key, vec![18, 0xAB]);
}

#[test]
fn keytab_selection_errors() {
    let entries = vec![entry("R", &["svc"], 3)];
    // matching entry with an unsupported key type
    assert!(select_keytab_key(&entries, "svc@R").is_err());
    // no matching entry at all
    assert!(select_keytab_key(&entries, "nobody@R").is_err());
}

#[test]
fn parent_and_file_name_of_canonical_paths() {
    assert_eq!(parent_path_of("/a/b/c.txt"), "/a/b");
    assert_eq!(parent_path_of("/a"), "/");
    assert_eq!(parent_path_of("name"), "");
    assert_eq!(file_name_of_path("/a/b/c.txt"), "c.txt");
    assert_eq!(file_name_of_path("name"), "name");
}

#[test]
fn joins_and_renames() {
    assert_eq!(join_path("/a/b", "c"), "/a/b/c");
    assert_eq!(renamed_path("/a/b/old.txt", "new.txt"), "/a/b/new.txt");
}

#[test]
fn trash_target_mirrors_the_original_location() {
    assert_eq!(trash_target_path("u", "/a/b/c.txt"), "/user/u/.Trash/Current/a/b/c.txt");
}

#[test]
fn local_target_is_relative_to_the_downloaded_root() {
    assert_eq!(local_target_path("/tmp/out", "/data/root", "/data/root/sub/f"), "/tmp/out/sub/f");
    assert_eq!(local_target_path("C:\\out", "/data", "/data/f"), "C:/out/f");
    // an entry outside the root keeps its full path under the target
    assert_eq!(local_target_path("/tmp/out", "/data/root", "/elsewhere/f"), "/tmp/out/elsewhere/f");
}

#[test]
fn separators_normalize_to_forward_slashes() {
    assert_eq!(normalize_separators("a\\b\\c"), "a/b/c");
    assert_eq!(normalize_separators("/already/fine"), "/already/fine");
}
