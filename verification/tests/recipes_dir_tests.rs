use cookbook_qualify::recipes_dir::is_yaml_file_name;

#[test]
fn yaml_extensions_are_recipes() {
    assert!(is_yaml_file_name("01-developer-workstation.yaml"));
    assert!(is_yaml_file_name("web.yml"));
    assert!(is_yaml_file_name("a.b.yaml"));
}

#[test]
fn other_names_are_not_recipes() {
    assert!(!is_yaml_file_name("README.md"));
    assert!(!is_yaml_file_name("yaml"));
    assert!(!is_yaml_file_name(".yaml"));
    assert!(!is_yaml_file_name("notes.yaml.bak"));
    assert!(!is_yaml_file_name("recipe.YAML"));
    assert!(!is_yaml_file_name("recipe."));
    assert!(!is_yaml_file_name(""));
}

#[test]
fn matches_path_extension() {
    for name in ["a.yaml", ".yaml", "..yaml", "x.yml", "x.yaml.", "no_ext", ".hidden.yml"] {
        let ext = std::path::Path::new(name).extension().and_then(|e| e.to_str());
        let expected = matches!(ext, Some("yaml") | Some("yml"));
        assert_eq!(is_yaml_file_name(name), expected, "name = {name}");
    }
}
