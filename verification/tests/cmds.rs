use rqs_lib::cmds::{clean_xdg_data_dirs, device_name_update};

#[test]
fn device_name_trimmed_or_ignored() {
    assert_eq!(device_name_update("  My PC \n").as_deref(), Some("My PC"));
    assert_eq!(device_name_update("laptop").as_deref(), Some("laptop"));
    assert_eq!(device_name_update(" \t "), None);
    assert_eq!(device_name_update(""), None);
}

#[test]
fn xdg_data_dirs_cleaned() {
    assert_eq!(
        clean_xdg_data_dirs("/tmp/.mount_x/usr/share:/usr/share::/opt/share", "/tmp/.mount_x"),
        "/usr/share:/opt/share"
    );
    assert_eq!(clean_xdg_data_dirs("/tmp/.mount_x/share", "/tmp/.mount_x"), "/usr/local/share:/usr/share");
    assert_eq!(clean_xdg_data_dirs("", "/app"), "/usr/local/share:/usr/share");
    assert_eq!(clean_xdg_data_dirs("/a:/b", ""), "/usr/local/share:/usr/share");
    assert_eq!(clean_xdg_data_dirs("/a:/b:", "/c"), "/a:/b");
}

#[test]
fn openers_in_order() {
    let cmds = rqs_lib::cmds::open_commands("/tmp/a b");
    assert_eq!(cmds.len(), 2);
    assert_eq!(cmds[0].program, "xdg-open");
    assert_eq!(cmds[0].args, vec!["/tmp/a b".to_string()]);
    assert_eq!(cmds[1].program, "gio");
    assert_eq!(cmds[1].args, vec!["open".to_string(), "/tmp/a b".to_string()]);
}
