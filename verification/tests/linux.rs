use containeros::linux::{mount_data, overlay_data, NulInOptions, SpecialFs};

#[test]
fn special_file_system_types() {
    assert_eq!(SpecialFs::Sys.as_str(), "sysfs");
    assert_eq!(SpecialFs::Dev.as_str(), "devtmpfs");
    assert_eq!(SpecialFs::Debug.as_str(), "debufs");
    assert_eq!(SpecialFs::Iso.as_str(), "iso9660");
    assert_eq!(SpecialFs::Squashfs.as_str(), "squashfs");
}

#[test]
fn mount_options() {
    assert_eq!(mount_data(&vec![]), Ok(None));
    assert_eq!(mount_data(&vec!["ro".to_string(), "mode=755".to_string()]), Ok(Some("ro,mode=755".to_string())));
    assert_eq!(mount_data(&vec!["a\0b".to_string()]), Err(NulInOptions));
}

#[test]
fn overlay_options() {
    let lower = vec!["/a".to_string(), "/b".to_string()];
    assert_eq!(overlay_data(&vec![], &lower, &None), Ok("lowerdir=/a:/b".to_string()));
    assert_eq!(
        overlay_data(&vec!["ro".to_string()], &lower, &Some(("/u".to_string(), "/w".to_string()))),
        Ok("ro,lowerdir=/a:/b,upperdir=/u,workdir=/w".to_string())
    );
}
