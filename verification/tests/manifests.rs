use window_switcher::manifest::{
    appx_logo_candidates, appx_logo_value, read_appx_logo_value, resolve_appx_logo_paths,
    ManifestAttribute, ManifestEvent,
};

const MANIFEST: &str = r#"<?xml version="1.0" encoding="utf-8"?>
<Package xmlns="http://schemas.microsoft.com/appx/manifest/foundation/windows10"
         xmlns:uap="http://schemas.microsoft.com/appx/manifest/uap/windows10">
  <Properties><Logo>Assets\StoreLogo.png</Logo></Properties>
  <Applications>
    <Application Id="One" Executable="one.exe">
      <uap:VisualElements DisplayName="One" Square150x150Logo="Assets\Medium.png"/>
    </Application>
    <Application Id="Two" Executable="bin\two.exe">
      <uap:VisualElements DisplayName="Two" Square44x44Logo="Assets\Two.png" SmallLogo="x.png">
        <uap:DefaultTile Square44x44Logo="Assets\Tile.png"/>
      </uap:VisualElements>
    </Application>
    <Application Id="Three" Executable="three.exe">
      <uap:VisualElements Square30x30Logo="Assets\Three.png"></uap:VisualElements>
    </Application>
  </Applications>
</Package>
"#;

fn logo(executable: Option<&str>) -> Option<String> {
    read_appx_logo_value(MANIFEST.as_bytes(), executable)
}

#[test]
fn a_manifest_names_the_logo_of_each_application() {
    assert_eq!(logo(Some("bin\\two.exe")).as_deref(), Some("Assets\\Two.png"));
    assert_eq!(logo(Some("three.exe")).as_deref(), Some("Assets\\Three.png"));
    // The first application declares none of the logos that are looked for.
    assert_eq!(logo(Some("one.exe")), None);
    assert_eq!(logo(Some("two.exe")), None);
    assert_eq!(logo(None).as_deref(), Some("Assets\\Two.png"));
}

#[test]
fn a_broken_manifest_counts_up_to_where_it_breaks() {
    let end = MANIFEST.find("<Application Id=\"Three\"").unwrap();
    let mut broken = MANIFEST[..end].to_string();
    broken.push_str("</Nonsense>");
    assert_eq!(
        read_appx_logo_value(broken.as_bytes(), None).as_deref(),
        Some("Assets\\Two.png")
    );
    assert_eq!(read_appx_logo_value(broken.as_bytes(), Some("three.exe")), None);
    assert_eq!(read_appx_logo_value(b"", None), None);
    assert_eq!(read_appx_logo_value(b"no document", None), None);
}

fn start(name: &str, attributes: &[(&str, &str)]) -> ManifestEvent {
    ManifestEvent::Start {
        name: name.to_string(),
        attributes: attributes
            .iter()
            .map(|(name, value)| ManifestAttribute {
                name: name.to_string(),
                value: value.to_string(),
            })
            .collect(),
    }
}

#[test]
fn elements_count_in_their_place_only() {
    let events = vec![
        start("Package", &[]),
        start("VisualElements", &[("SmallLogo", "wrong.png")]),
        ManifestEvent::End,
        start("Applications", &[]),
        start("Application", &[("Executable", "a.exe")]),
        start("Extensions", &[]),
        start("VisualElements", &[("SmallLogo", "wrong.png")]),
        ManifestEvent::End,
        ManifestEvent::Other,
        ManifestEvent::End,
        start("VisualElements", &[("Other", "no.png"), ("SmallLogo", "right.png")]),
        ManifestEvent::End,
        ManifestEvent::End,
    ];
    assert_eq!(appx_logo_value(&events, None).as_deref(), Some("right.png"));
    assert_eq!(appx_logo_value(&events, Some("a.exe")).as_deref(), Some("right.png"));
    assert_eq!(appx_logo_value(&events, Some("b.exe")), None);
}

#[test]
fn nothing_counts_after_a_failure() {
    let events = vec![
        start("Package", &[]),
        start("Applications", &[]),
        start("Application", &[]),
        ManifestEvent::Failure,
        start("VisualElements", &[("SmallLogo", "late.png")]),
    ];
    assert_eq!(appx_logo_value(&events, None), None);
}

#[test]
fn logos_come_in_sizes() {
    assert_eq!(
        appx_logo_candidates("C:\\Pkg\\Lögo.v2.png", "png"),
        vec![
            "C:\\Pkg\\Lögo.v2.targetsize-256.png",
            "C:\\Pkg\\Lögo.v2.targetsize-128.png",
            "C:\\Pkg\\Lögo.v2.scale-200.png",
            "C:\\Pkg\\Lögo.v2.scale-100.png",
        ]
    );
}

#[test]
fn only_files_that_are_there_are_loaded() {
    let names: Vec<String> = ["a", "b", "c"].iter().map(|n| n.to_string()).collect();
    assert_eq!(
        resolve_appx_logo_paths(&names, &vec![true, false, true]),
        Some(vec!["a".to_string(), "c".to_string()])
    );
    assert_eq!(resolve_appx_logo_paths(&names, &vec![false; 3]), None);
    assert_eq!(resolve_appx_logo_paths(&vec![], &vec![]), None);
}

#[test]
fn what_follows_the_logo_does_not_count() {
    let end = MANIFEST.find("<Application Id=\"Three\"").unwrap();
    for tail in ["", "</Applications></Package>", "<<<", "\u{0}"] {
        let mut document = MANIFEST[..end].to_string();
        document.push_str(tail);
        assert_eq!(
            read_appx_logo_value(document.as_bytes(), Some("bin\\two.exe")).as_deref(),
            Some("Assets\\Two.png")
        );
    }
}
