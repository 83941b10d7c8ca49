//! Flatpak applications: read lazily from the AppStream catalogue or the
//! `flatpak` command's listing, and searched by id or name.

use vstd::prelude::*;

use crate::text::{
    all_lines, chars_of, contains_seq, contains_str, find_char, find_in, lower_of, lowercase,
    same_text, split_all_lines, string_of,
};

verus! {

/// One Flatpak application.
#[derive(Debug, Clone)]
pub struct FlatpakApp {
    /// Application id, such as `org.mozilla.firefox`.
    pub id: String,
    /// Display name.
    pub name: String,
    /// One-line description.
    pub summary: String,
}

/// How the applications were loaded.
#[derive(Debug, Clone)]
pub struct FlatpakStats {
    pub app_count: usize,
    pub load_time_ms: u64,
    pub source: String,
}

impl Default for FlatpakStats {
    fn default() -> (r: Self)
        ensures
            r.app_count == 0,
            r.load_time_ms == 0,
            r.source@.len() == 0,
    {
        FlatpakStats { app_count: 0, load_time_ms: 0, source: String::new() }
    }
}

/// What the XML reader reports, as far as the catalogue reader cares.
#[derive(Debug)]
pub enum XmlEvent {
    /// An opening tag and its name.
    Start(String),
    /// Text between tags.
    Text(String),
    /// A closing tag and its name.
    End(String),
    /// The end of the document.
    Eof,
    /// The document could not be read further.
    Failed,
    /// Anything else.
    Other,
}

#[verifier::external_type_specification]
#[verifier::external_body]
#[verifier::reject_recursive_types(R)]
pub struct ExXmlReader<R>(quick_xml::Reader<R>);

/// Relies on `quick_xml::Reader::from_reader`, with text trimmed around
/// tags.
#[verifier::external_body]
fn xml_reader(data: &[u8]) -> quick_xml::Reader<&[u8]> {
    let mut reader = quick_xml::Reader::from_reader(data);
    reader.config_mut().trim_text(true);
    reader
}

/// Relies on `quick_xml::Reader::read_event`: the next event, with tag
/// names and unescaped text as strings. Nothing is promised of which event
/// comes.
#[verifier::external_body]
fn next_xml_event(reader: &mut quick_xml::Reader<&[u8]>) -> XmlEvent {
    match reader.read_event() {
        Ok(quick_xml::events::Event::Start(e)) => XmlEvent::Start(
            String::from_utf8_lossy(e.name().as_ref()).into_owned(),
        ),
        Ok(quick_xml::events::Event::Text(e)) => XmlEvent::Text(
            e.unescape().unwrap_or_default().into_owned(),
        ),
        Ok(quick_xml::events::Event::End(e)) => XmlEvent::End(
            String::from_utf8_lossy(e.name().as_ref()).into_owned(),
        ),
        Ok(quick_xml::events::Event::Eof) => XmlEvent::Eof,
        Err(_) => XmlEvent::Failed,
        Ok(_) => XmlEvent::Other,
    }
}

/// What gzip decompression of `data` gives, up to the first error.
pub uninterp spec fn gunzip_of(data: Seq<u8>) -> Seq<u8>;

/// Relies on `flate2::read::GzDecoder`: the bytes decompressed from `data`,
/// up to the first error; they depend on `data` alone.
#[verifier::external_body]
fn gunzip(data: &[u8]) -> (r: Vec<u8>)
    ensures
        r@ == gunzip_of(data@),
{
    let mut out = Vec::new();
    let _ = std::io::Read::read_to_end(&mut flate2::read::GzDecoder::new(data), &mut out);
    out
}

/// Where the catalogue reader stands between two XML events.
pub struct AppstreamState {
    /// Inside a `component` element.
    pub in_component: bool,
    pub id: String,
    pub name: String,
    pub summary: String,
    /// The tag whose text comes next.
    pub tag: String,
}

impl AppstreamState {
    /// The state before the first event.
    pub fn new() -> (r: Self)
        ensures
            !r.in_component,
            r.id@.len() == 0,
            r.name@.len() == 0,
            r.summary@.len() == 0,
            r.tag@.len() == 0,
    {
        AppstreamState {
            in_component: false,
            id: String::new(),
            name: String::new(),
            summary: String::new(),
            tag: String::new(),
        }
    }

    /// Takes one event. An opening `component` starts a fresh application;
    /// inside one, the first `name` and `summary` texts and the last `id`
    /// text are kept; its closing tag gives the application when it has
    /// both an id and a name.
    pub fn apply(&mut self, event: &XmlEvent) -> (r: Option<FlatpakApp>)
        ensures
            match event {
                XmlEvent::Start(t) => {
                    let opens = t@ == "component"@;
                    &&& final(self).in_component == (old(self).in_component || opens)
                    &&& opens ==> final(self).id@.len() == 0 && final(self).name@.len() == 0
                        && final(self).summary@.len() == 0
                    &&& !opens ==> final(self).id@ == old(self).id@ && final(self).name@ == old(
                        self,
                    ).name@ && final(self).summary@ == old(self).summary@
                    &&& final(self).tag@ == if final(self).in_component {
                        t@
                    } else {
                        old(self).tag@
                    }
                    &&& r is None
                },
                XmlEvent::Text(x) => {
                    let inside = old(self).in_component;
                    let tag = old(self).tag@;
                    &&& final(self).in_component == old(self).in_component
                    &&& final(self).tag@ == tag
                    &&& final(self).id@ == if inside && tag == "id"@ {
                        x@
                    } else {
                        old(self).id@
                    }
                    &&& final(self).name@ == if inside && tag == "name"@ && old(self).name@.len()
                        == 0 {
                        x@
                    } else {
                        old(self).name@
                    }
                    &&& final(self).summary@ == if inside && tag == "summary"@ && old(
                        self,
                    ).summary@.len() == 0 {
                        x@
                    } else {
                        old(self).summary@
                    }
                    &&& r is None
                },
                XmlEvent::End(t) => {
                    let closes = t@ == "component"@ && old(self).in_component;
                    &&& final(self).in_component == (old(self).in_component && !closes)
                    &&& final(self).tag@.len() == 0
                    &&& final(self).id@ == old(self).id@
                    &&& final(self).name@ == old(self).name@
                    &&& final(self).summary@ == old(self).summary@
                    &&& (closes && old(self).id@.len() > 0 && old(self).name@.len() > 0) ==> (
                    r matches Some(app) && app.id@ == old(self).id@ && app.name@ == old(
                        self,
                    ).name@ && app.summary@ == old(self).summary@)
                    &&& !(closes && old(self).id@.len() > 0 && old(self).name@.len() > 0) ==> r is None
                },
                _ => {
                    &&& final(self).in_component == old(self).in_component
                    &&& final(self).tag@ == old(self).tag@
                    &&& final(self).id@ == old(self).id@
                    &&& final(self).name@ == old(self).name@
                    &&& final(self).summary@ == old(self).summary@
                    &&& r is None
                },
            },
    {
        match event {
            XmlEvent::Start(t) => {
                if same_text(t.as_str(), "component") {
                    self.in_component = true;
                    self.id = String::new();
                    self.name = String::new();
                    self.summary = String::new();
                }
                if self.in_component {
                    self.tag = t.clone();
                }
                None
            },
            XmlEvent::Text(x) => {
                proof {
                    reveal_strlit("id");
                    reveal_strlit("name");
                    reveal_strlit("summary");
                }
                if self.in_component {
                    if same_text(self.tag.as_str(), "id") {
                        self.id = x.clone();
                    } else if same_text(self.tag.as_str(), "name") {
                        if self.name.as_str().is_empty() {
                            self.name = x.clone();
                        }
                    } else if same_text(self.tag.as_str(), "summary") {
                        if self.summary.as_str().is_empty() {
                            self.summary = x.clone();
                        }
                    }
                }
                None
            },
            XmlEvent::End(t) => {
                let mut r = None;
                if same_text(t.as_str(), "component") && self.in_component {
                    if !self.id.as_str().is_empty() && !self.name.as_str().is_empty() {
                        r = Some(
                            FlatpakApp {
                                id: self.id.clone(),
                                name: self.name.clone(),
                                summary: self.summary.clone(),
                            },
                        );
                    }
                    self.in_component = false;
                }
                self.tag = String::new();
                r
            },
            _ => None,
        }
    }
}

/// Reads the applications out of an AppStream XML document, until its end
/// or the first error. Every event but the last takes up input, so the
/// document's length bounds how many events are read.
pub fn parse_appstream_xml(data: &[u8]) -> Vec<FlatpakApp> {
    let mut reader = xml_reader(data);
    let mut state = AppstreamState::new();
    let mut apps: Vec<FlatpakApp> = Vec::new();
    let mut budget: usize = data.len();
    loop
        decreases budget,
    {
        let event = next_xml_event(&mut reader);
        match event {
            XmlEvent::Eof | XmlEvent::Failed => {
                break;
            },
            _ => {},
        }
        if let Some(app) = state.apply(&event) {
            apps.push(app);
        }
        if budget == 0 {
            break;
        }
        budget = budget - 1;
    }
    apps
}

/// Reads the applications out of a gzip-compressed AppStream document.
pub fn parse_gzipped_appstream(data: &[u8]) -> Vec<FlatpakApp> {
    let xml = gunzip(data);
    parse_appstream_xml(xml.as_slice())
}

/// The applications of one AppStream file, when it lists any.
pub fn appstream_apps(data: &[u8], gzipped: bool) -> (r: Option<Vec<FlatpakApp>>)
    ensures
        r matches Some(apps) ==> apps@.len() > 0,
{
    let apps = if gzipped {
        parse_gzipped_appstream(data)
    } else {
        parse_appstream_xml(data)
    };
    if apps.len() > 0 {
        Some(apps)
    } else {
        None
    }
}

/// The application a line of `flatpak remote-ls` describes: id, name and
/// description separated by tabs, the description optional.
pub open spec fn cli_entry(line: Seq<char>) -> Option<(Seq<char>, Seq<char>, Seq<char>)> {
    let p = find_char(line, '\t');
    if p >= line.len() {
        None
    } else {
        let rest = line.skip(p + 1);
        let q = find_char(rest, '\t');
        Some(
            (
                line.take(p),
                rest.take(q),
                if q < rest.len() {
                    rest.skip(q + 1)
                } else {
                    seq![]
                },
            ),
        )
    }
}

/// The applications of each line of `ls` that describes one, in order.
pub open spec fn cli_entries(ls: Seq<Seq<char>>) -> Seq<(Seq<char>, Seq<char>, Seq<char>)>
    decreases ls.len(),
{
    if ls.len() == 0 {
        seq![]
    } else {
        match cli_entry(ls.last()) {
            Some(e) => cli_entries(ls.drop_last()).push(e),
            None => cli_entries(ls.drop_last()),
        }
    }
}

fn cli_app(line: &str) -> (r: Option<FlatpakApp>)
    ensures
        r is None <==> cli_entry(line@) is None,
        r matches Some(a) ==> cli_entry(line@) == Some((a.id@, a.name@, a.summary@)),
{
    let chars = chars_of(line);
    let n = chars.len();
    assert(chars@.subrange(0, n as int) =~= line@);
    let p = find_in(&chars, 0, n, '\t');
    if p == n {
        return None;
    }
    let q = find_in(&chars, p + 1, n, '\t');
    assert(line@.skip(p + 1) =~= chars@.subrange(p + 1, n as int));
    assert(line@.take(p as int) =~= chars@.subrange(0, p as int));
    assert(line@.skip(p + 1).take(q as int) =~= chars@.subrange(p + 1, (p + 1 + q) as int));
    let summary = if p + 1 + q < n {
        assert(line@.skip(p + 1).skip(q + 1) =~= chars@.subrange((p + 2 + q) as int, n as int));
        string_of(&chars, p + 2 + q, n)
    } else {
        String::new()
    };
    Some(
        FlatpakApp {
            id: string_of(&chars, 0, p),
            name: string_of(&chars, p + 1, p + 1 + q),
            summary,
        },
    )
}

/// Reads the listing `flatpak remote-ls --app --columns=application,name,description`
/// prints.
pub fn parse_cli_listing(text: &str) -> (r: Vec<FlatpakApp>)
    ensures
        r@.len() == cli_entries(all_lines(text@)).len(),
        forall|k: int|
            0 <= k < r@.len() ==> {
                let e = cli_entries(all_lines(text@))[k];
                &&& (#[trigger] r@[k]).id@ == e.0
                &&& r@[k].name@ == e.1
                &&& r@[k].summary@ == e.2
            },
{
    let lines = split_all_lines(text);
    let ghost ls = all_lines(text@);
    let mut apps: Vec<FlatpakApp> = Vec::new();
    let mut i: usize = 0;
    while i < lines.len()
        invariant
            i <= lines@.len() == ls.len(),
            forall|j: int| 0 <= j < lines@.len() ==> #[trigger] lines@[j]@ == ls[j],
            apps@.len() == cli_entries(ls.take(i as int)).len(),
            forall|k: int|
                0 <= k < apps@.len() ==> {
                    let e = cli_entries(ls.take(i as int))[k];
                    &&& (#[trigger] apps@[k]).id@ == e.0
                    &&& apps@[k].name@ == e.1
                    &&& apps@[k].summary@ == e.2
                },
        decreases lines@.len() - i,
    {
        assert(ls.take(i + 1).drop_last() =~= ls.take(i as int));
        assert(ls.take(i + 1).last() == lines@[i as int]@);
        match cli_app(lines[i].as_str()) {
            Some(app) => {
                apps.push(app);
            },
            None => {},
        }
        i = i + 1;
    }
    assert(ls.take(i as int) =~= ls);
    apps
}

/// Whether an application matches a case-folded query by id or by name.
pub open spec fn app_matches(app: FlatpakApp, folded: Seq<char>) -> bool {
    contains_seq(lower_of(app.id@), folded) || contains_seq(lower_of(app.name@), folded)
}

/// Indices below `n` of the applications that match, in order.
pub open spec fn app_hits(apps: Seq<FlatpakApp>, n: int, folded: Seq<char>) -> Seq<int>
    decreases n,
{
    if n <= 0 {
        seq![]
    } else if app_matches(apps[n - 1], folded) {
        app_hits(apps, n - 1, folded).push(n - 1)
    } else {
        app_hits(apps, n - 1, folded)
    }
}

/// The Flatpak applications, loaded on first use.
#[derive(Debug)]
pub struct FlatpakDatabase {
    apps: Option<Vec<FlatpakApp>>,
    /// How the applications were loaded.
    pub stats: FlatpakStats,
}

impl FlatpakDatabase {
    /// The applications, once loaded.
    pub closed spec fn loaded(&self) -> Option<Seq<FlatpakApp>> {
        match self.apps {
            Some(v) => Some(v@),
            None => None,
        }
    }

    /// The load counters.
    pub closed spec fn counters(&self) -> FlatpakStats {
        self.stats
    }

    /// Nothing loaded yet.
    pub fn new() -> (r: Self)
        ensures
            r.loaded() is None,
    {
        FlatpakDatabase { apps: None, stats: FlatpakStats::default() }
    }

    /// Whether the applications are loaded.
    pub fn is_loaded(&self) -> (r: bool)
        ensures
            r == self.loaded() is Some,
    {
        self.apps.is_some()
    }

    /// Loads the applications, unless they are already: those of the
    /// AppStream catalogue when one was read, else those of the command-line
    /// listing when it ran; with neither the load fails.
    pub fn load(
        &mut self,
        appstream: Option<Vec<FlatpakApp>>,
        cli: Option<Vec<FlatpakApp>>,
        load_time_ms: u64,
    ) -> (r: Result<(), String>)
        ensures
            old(self).loaded() is Some ==> r is Ok && final(self).loaded() == old(self).loaded(),
            old(self).loaded() is None ==> match (appstream, cli) {
                (Some(a), _) => r is Ok && final(self).loaded() == Some(a@)
                    && final(self).counters().app_count == a@.len() && final(self).counters().source@
                    == "AppStream"@,
                (None, Some(c)) => r is Ok && final(self).loaded() == Some(c@)
                    && final(self).counters().app_count == c@.len() && final(self).counters().source@
                    == "CLI"@,
                (None, None) => r is Err && final(self).loaded() is None,
            },
    {
        if self.apps.is_some() {
            return Ok(());
        }
        match appstream {
            Some(apps) => {
                self.stats = FlatpakStats {
                    app_count: apps.len(),
                    load_time_ms,
                    source: String::from_str("AppStream"),
                };
                self.apps = Some(apps);
                Ok(())
            },
            None => match cli {
                Some(apps) => {
                    self.stats = FlatpakStats {
                        app_count: apps.len(),
                        load_time_ms,
                        source: String::from_str("CLI"),
                    };
                    self.apps = Some(apps);
                    Ok(())
                },
                None => Err(String::from_str("Failed to load Flatpak database")),
            },
        }
    }

    /// Number of applications; none until loaded.
    pub fn len(&self) -> (r: usize)
        ensures
            r == match self.loaded() {
                Some(a) => a.len(),
                None => 0,
            },
    {
        match &self.apps {
            Some(a) => a.len(),
            None => 0,
        }
    }

    /// The first `limit` applications whose case-folded id or name contains
    /// the case-folded query; none until loaded.
    pub fn search(&self, query: &str, limit: usize) -> (r: Vec<&FlatpakApp>)
        ensures
            self.loaded() is None ==> r@.len() == 0,
            self.loaded() matches Some(apps) ==> {
                let hits = app_hits(apps, apps.len() as int, lower_of(query@));
                let n = if hits.len() <= limit {
                    hits.len() as int
                } else {
                    limit as int
                };
                &&& r@.len() == n
                &&& forall|k: int| 0 <= k < n ==> *(#[trigger] r@[k]) == apps[hits[k]]
            },
    {
        let folded = lowercase(query);
        self.search_folded(folded.as_str(), limit)
    }

    /// The first `limit` applications whose case-folded id or name contains
    /// `folded`, a query already case-folded; none until loaded.
    pub fn search_folded(&self, folded: &str, limit: usize) -> (r: Vec<&FlatpakApp>)
        ensures
            self.loaded() is None ==> r@.len() == 0,
            self.loaded() matches Some(apps) ==> {
                let hits = app_hits(apps, apps.len() as int, folded@);
                let n = if hits.len() <= limit {
                    hits.len() as int
                } else {
                    limit as int
                };
                &&& r@.len() == n
                &&& forall|k: int| 0 <= k < n ==> *(#[trigger] r@[k]) == apps[hits[k]]
            },
    {
        let mut r: Vec<&FlatpakApp> = Vec::new();
        match &self.apps {
            None => r,
            Some(apps) => {
                let ghost all = apps@;
                if limit == 0 {
                    return r;
                }
                let mut i: usize = 0;
                while i < apps.len()
                    invariant_except_break
                        r@.len() == app_hits(all, i as int, folded@).len(),
                        r@.len() < limit,
                    invariant
                        all == apps@,
                        i <= apps@.len(),
                        forall|k: int|
                            0 <= k < r@.len() ==> *(#[trigger] r@[k]) == all[app_hits(
                                all,
                                i as int,
                                folded@,
                            )[k]],
                    ensures
                        r@.len() == if app_hits(all, all.len() as int, folded@).len() <= limit {
                            app_hits(all, all.len() as int, folded@).len() as int
                        } else {
                            limit as int
                        },
                        forall|k: int|
                            0 <= k < r@.len() ==> *(#[trigger] r@[k]) == all[app_hits(
                                all,
                                all.len() as int,
                                folded@,
                            )[k]],
                    decreases apps@.len() - i,
                {
                    let app = &apps[i];
                    let id_low = lowercase(app.id.as_str());
                    let name_low = lowercase(app.name.as_str());
                    if contains_str(id_low.as_str(), folded) || contains_str(
                        name_low.as_str(),
                        folded,
                    ) {
                        r.push(app);
                        if r.len() >= limit {
                            proof {
                                lemma_app_hits_prefix(all, i + 1, all.len() as int, folded@);
                            }
                            i = i + 1;
                            break;
                        }
                    }
                    i = i + 1;
                }
                r
            },
        }
    }

    /// Drops the applications and their counters.
    pub fn unload(&mut self)
        ensures
            final(self).loaded() is None,
            final(self).counters().app_count == 0,
    {
        self.apps = None;
        self.stats = FlatpakStats::default();
    }
}

/// The hits below `m` are a prefix of the hits below `n`.
pub proof fn lemma_app_hits_prefix(apps: Seq<FlatpakApp>, m: int, n: int, folded: Seq<char>)
    requires
        0 <= m <= n,
    ensures
        app_hits(apps, m, folded).len() <= app_hits(apps, n, folded).len(),
        forall|k: int|
            0 <= k < app_hits(apps, m, folded).len() ==> #[trigger] app_hits(apps, n, folded)[k]
                == app_hits(apps, m, folded)[k],
    decreases n - m,
{
    if m < n {
        lemma_app_hits_prefix(apps, m, n - 1, folded);
    }
}

} // verus!
