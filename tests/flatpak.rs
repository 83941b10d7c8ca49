use std::io::Write;

use terra_store::flatpak::{
    appstream_apps, parse_appstream_xml, parse_cli_listing, parse_gzipped_appstream, AppstreamState,
    FlatpakApp, FlatpakDatabase, XmlEvent,
};

#[test]
fn test_empty_database() {
    let db = FlatpakDatabase::new();
    assert!(!db.is_loaded());
    assert_eq!(db.len(), 0);
}

const XML: &str = "<?xml version=\"1.0\"?>
<components>
  <component type=\"desktop\">
    <id>org.mozilla.firefox</id>
    <name>Firefox</name>
    <name xml:lang=\"de\">Feuerfuchs</name>
    <summary>Web browser</summary>
  </component>
  <component><name>No id</name></component>
  <component><id>org.gnome.Gimp</id><name>GIMP &amp; co</name></component>
</components>";

fn app(id: &str, name: &str, summary: &str) -> FlatpakApp {
    FlatpakApp { id: id.to_string(), name: name.to_string(), summary: summary.to_string() }
}

#[test]
fn appstream_xml_is_read() {
    let apps = parse_appstream_xml(XML.as_bytes());
    assert_eq!(apps.len(), 2);
    assert_eq!((apps[0].id.as_str(), apps[0].name.as_str(), apps[0].summary.as_str()),
        ("org.mozilla.firefox", "Firefox", "Web browser"));
    assert_eq!(apps[1].name, "GIMP & co");
}

#[test]
fn gzipped_appstream_is_read() {
    let mut enc = flate2::write::GzEncoder::new(Vec::new(), flate2::Compression::default());
    enc.write_all(XML.as_bytes()).unwrap();
    let gz = enc.finish().unwrap();
    let apps = parse_gzipped_appstream(&gz);
    assert_eq!(apps.len(), 2);
    assert!(appstream_apps(&gz, true).is_some());
    assert!(appstream_apps(b"<components/>", false).is_none());
}

#[test]
fn state_machine_steps() {
    let mut s = AppstreamState::new();
    assert!(s.apply(&XmlEvent::Start("component".to_string())).is_none());
    s.apply(&XmlEvent::Start("id".to_string()));
    s.apply(&XmlEvent::Text("a.b".to_string()));
    s.apply(&XmlEvent::End("id".to_string()));
    s.apply(&XmlEvent::Start("name".to_string()));
    s.apply(&XmlEvent::Text("A".to_string()));
    s.apply(&XmlEvent::End("name".to_string()));
    let done = s.apply(&XmlEvent::End("component".to_string())).unwrap();
    assert_eq!((done.id.as_str(), done.name.as_str(), done.summary.as_str()), ("a.b", "A", ""));
    assert!(!s.in_component);
}

#[test]
fn cli_listing_is_read() {
    let apps = parse_cli_listing("org.a.A\tA\tFirst app\nbroken line\norg.b.B\tB\n");
    assert_eq!(apps.len(), 2);
    assert_eq!(apps[0].summary, "First app");
    assert_eq!((apps[1].id.as_str(), apps[1].summary.as_str()), ("org.b.B", ""));
}

#[test]
fn load_search_unload() {
    let mut db = FlatpakDatabase::new();
    assert!(db.load(None, None, 0).is_err());
    assert!(!db.is_loaded());
    let apps = vec![app("org.mozilla.firefox", "Firefox", ""), app("org.gnome.Gimp", "GIMP", ""),
        app("org.fox.Tool", "Tool", "")];
    db.load(Some(apps), Some(vec![]), 5).unwrap();
    assert_eq!(db.stats.source, "AppStream");
    assert_eq!(db.len(), 3);
    let hits = db.search("FOX", 10);
    assert_eq!(hits.len(), 2);
    assert_eq!(hits[1].id, "org.fox.Tool");
    assert_eq!(db.search("fox", 1).len(), 1);
    assert!(db.load(None, None, 0).is_ok());
    db.unload();
    assert!(!db.is_loaded());
    assert!(db.search("fox", 10).is_empty());
    db.load(None, Some(vec![app("x", "X", "")]), 1).unwrap();
    assert_eq!(db.stats.source, "CLI");
}
