use livefetch::cli::{Args, ProtocolArg};
use livefetch::config::{load, resolve_config_path, FileConfig, ProtocolPref};
use livefetch::image::chroma::{ChromaError, ChromaKey};

fn no_args() -> Args {
    Args {
        image: None,
        protocol: None,
        image_cols: None,
        no_animate: false,
        live: false,
        refresh: None,
        config: None,
        modules: None,
        list_modules: false,
        logo: None,
        list_logos: false,
        chroma: None,
        chroma_tolerance: None,
    }
}

#[test]
fn config_defaults_from_empty_file() {
    let c = load(FileConfig::empty()).unwrap();
    assert_eq!(c.image_path, None);
    assert_eq!(c.protocol, ProtocolPref::Auto);
    assert_eq!(c.image_cols, 34);
    assert!(c.animate);
    assert!(!c.live);
    assert_eq!(c.refresh_ms, 500);
    assert_eq!(c.modules.len(), 30);
    assert_eq!(c.modules[0], "title");
    assert_eq!(c.modules[29], "colors");
    assert_eq!(c.chroma, ChromaKey::Off);
    assert_eq!(c.chroma_tolerance, 24);
    assert_eq!(c.logo, "auto");
}

#[test]
fn config_file_values_are_used() {
    let mut f = FileConfig::empty();
    f.image = Some("tux.gif".to_string());
    f.protocol = Some("kitty".to_string());
    f.refresh_ms = Some(10);
    f.live = Some(true);
    f.modules = Some(vec!["os".to_string(), "cpu".to_string()]);
    f.chroma = Some("white".to_string());
    f.logo = Some("arch".to_string());
    let c = load(f).unwrap();
    assert_eq!(c.image_path, Some("tux.gif".to_string()));
    assert_eq!(c.protocol, ProtocolPref::Kitty);
    assert_eq!(c.refresh_ms, 50);
    assert!(c.live);
    assert_eq!(c.modules, vec!["os".to_string(), "cpu".to_string()]);
    assert_eq!(c.chroma, ChromaKey::Color(255, 255, 255));
    assert_eq!(c.logo, "arch");
}

#[test]
fn config_protocol_names() {
    let mut f = FileConfig::empty();
    f.protocol = Some("none".to_string());
    assert_eq!(load(f).unwrap().protocol, ProtocolPref::Off);
    let mut f = FileConfig::empty();
    f.protocol = Some("sixel".to_string());
    assert_eq!(load(f).unwrap().protocol, ProtocolPref::Auto);
}

#[test]
fn config_bad_chroma_is_an_error() {
    let mut f = FileConfig::empty();
    f.chroma = Some("#12345".to_string());
    assert!(matches!(load(f), Err(ChromaError::Format)));
    let mut f = FileConfig::empty();
    f.chroma = Some("#zz0000".to_string());
    assert!(matches!(load(f), Err(ChromaError::Digits)));
}

#[test]
fn cli_flags_override_the_file() {
    let c = load(FileConfig::empty()).unwrap();
    let mut a = no_args();
    a.image = Some("a.png".to_string());
    a.protocol = Some(ProtocolArg::Off);
    a.image_cols = Some(20);
    a.no_animate = true;
    a.live = true;
    a.refresh = Some(20);
    a.chroma = Some("#ff8000".to_string());
    a.chroma_tolerance = Some(5);
    a.logo = Some("none".to_string());
    let m = c.merge_cli(&a);
    assert_eq!(m.image_path, Some("a.png".to_string()));
    assert_eq!(m.protocol, ProtocolPref::Off);
    assert_eq!(m.image_cols, 20);
    assert!(!m.animate);
    assert!(m.live);
    assert_eq!(m.refresh_ms, 50);
    assert_eq!(m.chroma, ChromaKey::Color(255, 128, 0));
    assert_eq!(m.chroma_tolerance, 5);
    assert_eq!(m.logo, "none");
}

#[test]
fn cli_unparsable_chroma_is_ignored() {
    let mut f = FileConfig::empty();
    f.chroma = Some("black".to_string());
    let c = load(f).unwrap();
    let mut a = no_args();
    a.chroma = Some("#nothex".to_string());
    let m = c.merge_cli(&a);
    assert_eq!(m.chroma, ChromaKey::Color(0, 0, 0));
}

#[test]
fn cli_without_flags_keeps_config() {
    let mut f = FileConfig::empty();
    f.animate = Some(false);
    let c = load(f).unwrap();
    let m = c.merge_cli(&no_args());
    assert!(!m.animate);
    assert_eq!(m.refresh_ms, 500);
    assert_eq!(m.modules.len(), 30);
}

#[test]
fn config_path_resolution() {
    assert_eq!(
        resolve_config_path(Some("x.json".to_string()), false, None, None, None),
        Some(vec!["x.json".to_string()])
    );
    assert_eq!(
        resolve_config_path(None, true, Some("C:\\AppData".to_string()), None, None),
        Some(vec!["C:\\AppData".to_string(), "livefetch".to_string(), "config.json".to_string()])
    );
    assert_eq!(resolve_config_path(None, true, None, None, Some("/h".to_string())), None);
    assert_eq!(
        resolve_config_path(None, false, None, Some("/x".to_string()), Some("/h".to_string())),
        Some(vec!["/x".to_string(), "livefetch".to_string(), "config.json".to_string()])
    );
    assert_eq!(
        resolve_config_path(None, false, None, None, Some("/h".to_string())),
        Some(vec![
            "/h".to_string(),
            ".config".to_string(),
            "livefetch".to_string(),
            "config.json".to_string()
        ])
    );
    assert_eq!(resolve_config_path(None, false, None, None, None), None);
}

#[test]
fn chroma_words_and_colours() {
    assert_eq!(ChromaKey::parse(""), Ok(ChromaKey::Off));
    assert_eq!(ChromaKey::parse("  None "), Ok(ChromaKey::Off));
    assert_eq!(ChromaKey::parse("AUTO"), Ok(ChromaKey::Auto));
    assert_eq!(ChromaKey::parse("white"), Ok(ChromaKey::Color(255, 255, 255)));
    assert_eq!(ChromaKey::parse("Black"), Ok(ChromaKey::Color(0, 0, 0)));
    assert_eq!(ChromaKey::parse(" #FF8000 "), Ok(ChromaKey::Color(255, 128, 0)));
    assert_eq!(ChromaKey::parse("##00ff00"), Ok(ChromaKey::Color(0, 255, 0)));
    assert_eq!(ChromaKey::parse("0000ff"), Ok(ChromaKey::Color(0, 0, 255)));
}

#[test]
fn chroma_errors() {
    assert_eq!(ChromaKey::parse("#fff"), Err(ChromaError::Format));
    assert_eq!(ChromaKey::parse("red"), Err(ChromaError::Format));
    assert_eq!(ChromaKey::parse("#12345g"), Err(ChromaError::Digits));
    assert_eq!(ChromaKey::parse("#ééé"), Err(ChromaError::Digits));
    assert_eq!(ChromaKey::parse("#+f+f+f"), Err(ChromaError::Digits));
}

#[test]
fn chroma_non_ascii_is_an_error() {
    assert_eq!(ChromaKey::parse("aé123"), Err(ChromaError::Digits));
    assert_eq!(ChromaKey::parse("#aé€"), Err(ChromaError::Digits));
}
