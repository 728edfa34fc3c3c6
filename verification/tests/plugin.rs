use bevy_include_assets::{AssetIoError, EmbeddedAssetsPlugin, FileType, Metadata};

#[test]
fn plugin_holds_the_namespace_of_its_files() {
    let plugin = EmbeddedAssetsPlugin::new(vec![("a/b.png".to_string(), vec![1, 2, 3])]);
    assert_eq!(plugin.io().load_path("a/b.png"), Ok(vec![1, 2, 3]));
    assert_eq!(plugin.io().read_directory("a"), Ok(vec!["a/b.png".to_string()]));
    assert_eq!(
        plugin.io().get_metadata("a"),
        Ok(Metadata { file_type: FileType::Directory })
    );
    assert_eq!(
        plugin.io().load_path("x"),
        Err(AssetIoError::NotFound("x".to_string()))
    );
}

#[test]
fn plugin_hands_its_namespace_over() {
    let plugin = EmbeddedAssetsPlugin::new(vec![
        ("bnnuy.png".to_string(), vec![4, 2]),
        ("fonts/sans.ttf".to_string(), vec![7]),
    ]);
    let io = plugin.into_io();
    assert_eq!(io.load_path("bnnuy.png"), Ok(vec![4, 2]));
    assert_eq!(io.read_directory(""), Ok(vec!["bnnuy.png".to_string()]));
    assert_eq!(io.read_directory("fonts"), Ok(vec!["fonts/sans.ttf".to_string()]));
}

#[test]
fn default_plugin_is_empty() {
    let plugin = EmbeddedAssetsPlugin::default();
    assert_eq!(
        plugin.io().load_path("bnnuy.png"),
        Err(AssetIoError::NotFound("bnnuy.png".to_string()))
    );
    assert_eq!(
        plugin.io().read_directory(""),
        Err(AssetIoError::NotFound("".to_string()))
    );
}

#[test]
fn plugin_has_a_name() {
    assert_eq!(EmbeddedAssetsPlugin::default().name(), "EmbeddedAssetsPlugin");
}
