use omni::config::Config;
use omni::omni_path::{Error, OmniPath};

fn s(v: &str) -> String {
    v.to_string()
}

fn linalg_config(prefix: Option<&str>) -> Config {
    let mut config = Config::new(s("proj"));
    config.project.prefix_dir = prefix.map(|p| p.to_string());
    config.add_alias(s("linalg"), s("cs/linear-algebra"));
    config
}

#[test]
fn test_unaliasing() {
    let config = linalg_config(None);

    let op = OmniPath::new(vec![s("linalg")], s("matrix"));
    assert_eq!(op.unalias(&config).unwrap().path, ["cs", "linear-algebra"]);

    let op = OmniPath::new(vec![s("linalg"), s("spectral-analysis")], s("determinant"));
    assert_eq!(
        op.unalias(&config).unwrap().path,
        ["cs", "linear-algebra", "spectral-analysis"]
    );

    let op = OmniPath::new(vec![s("cs"), s("c")], s("matrix"));
    assert_eq!(op.unalias(&config).unwrap().path, ["cs", "c"]);
}

#[test]
fn test_unaliasing_with_prefix() {
    let config = linalg_config(Some("src"));

    let op = OmniPath::new(vec![s("linalg")], s("matrix"));
    assert_eq!(op.unalias(&config).unwrap().path, ["src", "cs", "linear-algebra"]);

    let op = OmniPath::new(vec![s("linalg"), s("spectral-analysis")], s("determinant"));
    assert_eq!(
        op.unalias(&config).unwrap().path,
        ["src", "cs", "linear-algebra", "spectral-analysis"]
    );

    let op = OmniPath::new(vec![s("cs"), s("c")], s("matrix"));
    assert_eq!(op.unalias(&config).unwrap().path, ["src", "cs", "c"]);

    let op = OmniPath::new(vec![s("src"), s("cs"), s("c")], s("matrix"));
    assert_eq!(op.unalias(&config).unwrap().path, ["src", "cs", "c"]);
}

#[test]
fn test_double_unaliasing() {
    let config = linalg_config(None);
    let op = OmniPath::new(vec![s("linalg"), s("spectral-analysis")], s("determinant"));
    assert_eq!(
        op.clone().unalias(&config).unwrap().path,
        op.unalias(&config).unwrap().unalias(&config).unwrap().path,
    );
}

#[test]
fn unaliasing_twice_with_prefix_changes_nothing() {
    let config = linalg_config(Some("src"));
    let op = OmniPath::new(vec![s("linalg")], s("matrix"));
    let once = op.unalias(&config).unwrap();
    let twice = once.clone().unalias(&config).unwrap();
    assert_eq!(once, twice);
    assert!(twice.is_unaliased());
}

#[test]
fn unaliasing_an_empty_path_adds_only_the_prefix() {
    let config = linalg_config(Some("src"));
    let op = OmniPath::new(vec![], s("matrix"));
    assert_eq!(op.unalias(&config).unwrap().path, ["src"]);
    let config = linalg_config(None);
    let op = OmniPath::new(vec![], s("matrix"));
    assert!(op.unalias(&config).unwrap().path.is_empty());
}

#[test]
fn unaliasing_with_an_empty_alias_target_fails() {
    let mut config = Config::new(s("proj"));
    config.add_alias(s("broken"), s(""));
    let op = OmniPath::new(vec![s("broken")], s("matrix"));
    assert_eq!(op.unalias(&config), Err(Error::EmptyPathInConfig));
}

#[test]
fn test_tryinto() {
    let config = linalg_config(None);
    let op = OmniPath::new(vec![s("linalg"), s("spectral-analysis")], s("determinant"));
    assert_eq!(
        op.clone().unalias(&config).unwrap().try_into_path().unwrap(),
        "cs/linear-algebra/spectral-analysis/determinant"
    );
}

#[test]
#[should_panic]
fn test_tryinto_fail() {
    OmniPath::new(vec![s("some")], s("path")).try_into_path().unwrap();
}

#[test]
fn pathizing_an_aliased_path_is_refused() {
    let op = OmniPath::new(vec![s("some")], s("path"));
    assert_eq!(op.try_into_path(), Err(Error::PathizeNotUnaliased));
}

#[test]
fn pathizing_a_bare_name_gives_the_name() {
    let op = OmniPath::new(vec![], s("note")).force_unalias();
    assert_eq!(op.try_into_path().unwrap(), "note");
}

#[test]
fn test_tryfrom() {
    let op = OmniPath::try_from_path("linalg/matrix").unwrap();
    assert_eq!(op.path, ["linalg"]);
    assert_eq!(op.name, "matrix");
    assert!(!op.is_unaliased());
}

#[test]
#[should_panic]
fn test_tryfrom_fail() {
    OmniPath::try_from_path("../linalg/matrix").unwrap();
}

#[test]
fn converting_paths_reports_each_error() {
    assert_eq!(OmniPath::try_from_path(""), Err(Error::EmptyPathInConversionFromPath));
    assert_eq!(OmniPath::try_from_path("/abs/matrix"), Err(Error::InvalidComponent));
    assert_eq!(OmniPath::try_from_path("./matrix"), Err(Error::InvalidComponent));
    let op = OmniPath::try_from_path("matrix").unwrap();
    assert!(op.path.is_empty());
    assert_eq!(op.name, "matrix");
}

#[test]
fn test_tryrealias() {
    let mut op = OmniPath::new(vec![s("cs"), s("linear-algebra")], s("vector")).force_unalias();
    let done = op.try_realias("linalg", "cs/linear-algebra");
    assert!(done);
    assert_eq!(op.path, ["linalg"]);
    assert!(!op.is_unaliased());

    let mut op = OmniPath::new(vec![s("cs"), s("linear-algebra")], s("vector")).force_unalias();
    let done = op.try_realias("rust", "cs/rust");
    assert!(!done);
    assert_eq!(op.path, ["cs", "linear-algebra"]);
}

#[test]
fn realiasing_an_aliased_path_does_nothing() {
    let mut op = OmniPath::new(vec![s("cs"), s("linear-algebra")], s("vector"));
    assert!(!op.try_realias("linalg", "cs/linear-algebra"));
    assert_eq!(op.path, ["cs", "linear-algebra"]);
}

#[test]
fn realiased_paths_unalias_back() {
    let config = linalg_config(None);
    let mut op = OmniPath::new(vec![s("cs"), s("linear-algebra"), s("spectral")], s("det"))
        .force_unalias();
    assert!(op.try_realias("linalg", "cs/linear-algebra"));
    assert_eq!(op.path, ["linalg", "spectral"]);
    assert_eq!(op.unalias(&config).unwrap().path, ["cs", "linear-algebra", "spectral"]);
}

#[test]
fn typst_style_spelling() {
    let op = OmniPath::new(vec![s("linalg"), s("spectral")], s("det"));
    assert_eq!(op.as_typst_style(), "omni.linalg.spectral.det");
    let op = OmniPath::new(vec![], s("det"));
    assert_eq!(op.as_typst_style(), "omni.det");
}
