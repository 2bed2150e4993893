use containeros::install::{
    boot_partition_name, boot_step, config_partition_name, config_step, data_partition_name, data_step,
    get_config_layout, limine_conf, ConfigLayout, DiskEncryption, DiskPartition, InstallConfig, InstallDisk,
    InstallError,
};

fn disk(dev: &str, partitions: Vec<DiskPartition>) -> InstallDisk {
    InstallDisk { dev: dev.to_string(), partitions }
}

fn layout(boot: Option<&str>, config: Option<&str>, data: Option<&str>) -> ConfigLayout {
    ConfigLayout {
        boot: boot.map(|s| s.to_string()),
        config: config.map(|s| s.to_string()),
        data: data.map(|s| s.to_string()),
        boot_partition: None,
        config_partition: None,
        data_partition: None,
    }
}

#[test]
fn layout_finds_each_partition() {
    let cfg = InstallConfig {
        disks: vec![
            disk("/dev/sda", vec![DiskPartition::Boot, DiskPartition::Config { encryption: None }]),
            disk("/dev/sdb", vec![DiskPartition::Data { encryption: Some(DiskEncryption::Tpm2) }]),
        ],
    };
    let l = get_config_layout(&cfg).unwrap();
    assert_eq!(l.boot.as_deref(), Some("/dev/sda"));
    assert_eq!(l.config.as_deref(), Some("/dev/sda"));
    assert_eq!(l.data.as_deref(), Some("/dev/sdb"));
    assert!(matches!(l.boot_partition, Some(DiskPartition::Boot)));
    assert!(matches!(l.config_partition, Some(DiskPartition::Config { encryption: None })));
    assert!(matches!(l.data_partition, Some(DiskPartition::Data { encryption: Some(DiskEncryption::Tpm2) })));
    let empty = get_config_layout(&InstallConfig { disks: vec![] }).unwrap();
    assert!(empty.boot.is_none() && empty.config.is_none() && empty.data.is_none());
    assert!(empty.boot_partition.is_none() && empty.config_partition.is_none() && empty.data_partition.is_none());
}

#[test]
fn layout_refuses_duplicates() {
    let two_boot = InstallConfig {
        disks: vec![disk("/dev/sda", vec![DiskPartition::Boot]), disk("/dev/sdb", vec![DiskPartition::Boot])],
    };
    assert_eq!(get_config_layout(&two_boot).unwrap_err(), InstallError::MultipleBoot);
    let two_config = InstallConfig {
        disks: vec![disk(
            "/dev/sda",
            vec![DiskPartition::Config { encryption: None }, DiskPartition::Config { encryption: None }],
        )],
    };
    assert_eq!(get_config_layout(&two_config).unwrap_err(), InstallError::MultipleConfig);
    let two_data = InstallConfig {
        disks: vec![disk(
            "/dev/sda",
            vec![
                DiskPartition::Data { encryption: None },
                DiskPartition::Data {
                    encryption: Some(DiskEncryption::Static { key: "k".to_string(), autounlock: true }),
                },
            ],
        )],
    };
    assert_eq!(get_config_layout(&two_data).unwrap_err(), InstallError::MultipleData);
    assert_eq!(InstallError::MultipleBoot.message(), "can only specify one boot partition");
}

#[test]
fn installed_partitions_stay_put() {
    let old = layout(Some("/dev/sda"), Some("/dev/sda"), Some("/dev/sdb"));
    assert_eq!(boot_step(&old, &layout(Some("/dev/sdc"), None, None)).unwrap_err(), InstallError::Moved);
    assert_eq!(boot_step(&old, &layout(None, None, None)).unwrap_err(), InstallError::Removed);
    assert_eq!(boot_step(&old, &old).unwrap(), None);
    assert_eq!(config_step(&old, &layout(None, Some("/dev/sdc"), None), &None).unwrap_err(), InstallError::Moved);
    assert_eq!(data_step(&old, &layout(None, None, None), &None, &None).unwrap_err(), InstallError::Removed);
    assert_eq!(InstallError::Moved.message(), "cannot move boot disk to another partition");
    assert_eq!(InstallError::Removed.message(), "cannot remove boot disk");
}

#[test]
fn new_boot_cannot_follow_installed_partitions() {
    let old = layout(None, Some("/dev/sda"), None);
    let new = layout(Some("/dev/sda"), Some("/dev/sda"), None);
    assert_eq!(boot_step(&old, &new).unwrap_err(), InstallError::AfterConfig);
    let old = layout(None, None, Some("/dev/sda"));
    let new = layout(Some("/dev/sda"), None, Some("/dev/sda"));
    assert_eq!(boot_step(&old, &new).unwrap_err(), InstallError::AfterData);
    let old = layout(None, None, Some("/dev/sda"));
    let new = layout(None, Some("/dev/sda"), Some("/dev/sda"));
    assert_eq!(config_step(&old, &new, &None).unwrap_err(), InstallError::AfterData);
    assert_eq!(InstallError::AfterConfig.message(), "cannot append partition after config");
    assert_eq!(InstallError::AfterData.message(), "cannot append partition after data");
}

#[test]
fn fresh_install_on_one_disk_numbers_partitions() {
    let old = layout(None, None, None);
    let new = layout(Some("/dev/vda"), Some("/dev/vda"), Some("/dev/vda"));
    let boot_dev = boot_step(&old, &new).unwrap().unwrap();
    let boot = boot_partition_name(&boot_dev);
    assert_eq!(boot, "/dev/vda2");
    let (config_dev, has_boot) = config_step(&old, &new, &Some(boot.clone())).unwrap().unwrap();
    assert!(has_boot);
    let config = config_partition_name(&config_dev, has_boot);
    assert_eq!(config, "/dev/vda3");
    let (data_dev, b, c) = data_step(&old, &new, &Some(boot.clone()), &Some(config.clone())).unwrap().unwrap();
    assert!(b && c);
    assert_eq!(data_partition_name(&data_dev, b, c), "/dev/vda4");
}

#[test]
fn partitions_on_other_disks_start_at_one() {
    assert_eq!(config_partition_name("/dev/sdb", false), "/dev/sdb1");
    assert_eq!(data_partition_name("/dev/sdc", false, false), "/dev/sdc1");
    assert_eq!(data_partition_name("/dev/sdc", false, true), "/dev/sdc2");
    assert_eq!(data_partition_name("/dev/sdc", true, false), "/dev/sdc3");
}

#[test]
fn boot_loader_configuration_names_partitions() {
    let text = limine_conf("/dev/vda2", &Some("/dev/vda3".to_string()), &None);
    let expected = "\ntimeout: 5\n\n/ContainerOs\n    protocol: linux\n    path: boot():/bzImage\n    cmdline: console=ttyS0,115200 init=/init cos.bootdisk=/dev/vda2 cos.configdisk=/dev/vda3 \n    module_path: boot():/initrd\n\n/ContainerOs (maintenance)\n    protocol: linux\n    path: boot():/bzImage\n    cmdline: console=ttyS0,115200 init=/init cos.maintenance\n    module_path: boot():/initrd\n    ";
    assert_eq!(text, expected);
}
