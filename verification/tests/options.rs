use hdfs_native::WriteOptions;

#[test]
fn default_write_options() {
    let options = WriteOptions::default();
    assert_eq!(options.block_size, None);
    assert_eq!(options.replication, None);
    assert_eq!(options.permission, 0o644);
    assert!(!options.overwrite);
    assert!(options.create_parent);
}

#[test]
fn each_setter_sets_its_option_alone() {
    let default = WriteOptions::default();
    assert_eq!(
        default.block_size(1024),
        WriteOptions { block_size: Some(1024), ..WriteOptions::default() }
    );
    assert_eq!(
        default.replication(3),
        WriteOptions { replication: Some(3), ..WriteOptions::default() }
    );
    assert_eq!(
        default.permission(0o755),
        WriteOptions { permission: 493, ..WriteOptions::default() }
    );
    assert_eq!(
        default.overwrite(true),
        WriteOptions { overwrite: true, ..WriteOptions::default() }
    );
    assert_eq!(
        default.create_parent(false),
        WriteOptions { create_parent: false, ..WriteOptions::default() }
    );
}

#[test]
fn setters_chain_and_the_last_one_counts() {
    let options = WriteOptions::default().overwrite(true).block_size(1).block_size(2).clone();
    assert_eq!(options.block_size, Some(2));
    assert!(options.overwrite);
    assert_eq!(*options.as_ref(), options);
}
