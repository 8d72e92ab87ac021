//! Reading the dependencies out of a Maven POM: the XML events of the file
//! are folded into the list of dependencies of compile scope.

use vstd::prelude::*;
use crate::maven::MavenCoordinate;
use crate::text::{chars_of, str_eq};

verus! {

/// An event of a POM as far as the dependencies care about it.
#[derive(Debug, Clone, PartialEq, Eq)]
pub enum PomEvent {
    /// An opening tag of this name.
    Start(String),
    /// A closing tag of this name.
    End(String),
    /// Text between tags, unescaped.
    Text(String),
    /// Anything else.
    Other,
    /// The end of the file, or an error in it.
    Stop,
}

/// Group, artifact and version as text.
pub type Triple = (Seq<char>, Seq<char>, Seq<char>);

/// What has been read of a POM so far.
pub struct PomView {
    pub in_dependencies: bool,
    pub in_dependency: bool,
    pub in_dep_mgmt: bool,
    pub group: Seq<char>,
    pub artifact: Seq<char>,
    pub version: Seq<char>,
    pub scope: Seq<char>,
    pub tag: Seq<char>,
    pub found: Seq<Triple>,
}

/// The state before anything is read.
pub open spec fn pom_start() -> PomView {
    PomView {
        in_dependencies: false,
        in_dependency: false,
        in_dep_mgmt: false,
        group: Seq::empty(),
        artifact: Seq::empty(),
        version: Seq::empty(),
        scope: Seq::empty(),
        tag: Seq::empty(),
        found: Seq::empty(),
    }
}

/// Whether the dependency that was just closed counts: its scope is compile
/// or not given, group, artifact and version are given, and the version
/// does not start with a dollar sign, as the name of a property would.
pub open spec fn counts(s: PomView) -> bool {
    &&& s.scope.len() == 0 || s.scope == "compile"@
    &&& s.group.len() > 0
    &&& s.artifact.len() > 0
    &&& s.version.len() > 0
    &&& s.version[0] != '$'
}

/// The state after an opening tag called `name`.
pub open spec fn after_start(s: PomView, name: Seq<char>) -> PomView {
    if name == "dependencyManagement"@ {
        PomView { in_dep_mgmt: true, ..s }
    } else if name == "dependencies"@ && !s.in_dep_mgmt {
        PomView { in_dependencies: true, ..s }
    } else if name == "dependency"@ && s.in_dependencies && !s.in_dep_mgmt {
        PomView {
            in_dependency: true,
            group: Seq::empty(),
            artifact: Seq::empty(),
            version: Seq::empty(),
            scope: Seq::empty(),
            ..s
        }
    } else if s.in_dependency {
        PomView { tag: name, ..s }
    } else {
        s
    }
}

/// The state after a closing tag called `name`.
pub open spec fn after_end(s: PomView, name: Seq<char>) -> PomView {
    if name == "dependencyManagement"@ {
        PomView { in_dep_mgmt: false, ..s }
    } else if name == "dependencies"@ && !s.in_dep_mgmt {
        PomView { in_dependencies: false, ..s }
    } else if name == "dependency"@ && s.in_dependency {
        if counts(s) {
            PomView { in_dependency: false, found: s.found.push((s.group, s.artifact, s.version)), ..s }
        } else {
            PomView { in_dependency: false, ..s }
        }
    } else {
        PomView { tag: Seq::empty(), ..s }
    }
}

/// The state after a piece of text.
pub open spec fn after_text(s: PomView, text: Seq<char>) -> PomView {
    if !s.in_dependency {
        s
    } else if s.tag == "groupId"@ {
        PomView { group: text, ..s }
    } else if s.tag == "artifactId"@ {
        PomView { artifact: text, ..s }
    } else if s.tag == "version"@ {
        PomView { version: text, ..s }
    } else if s.tag == "scope"@ {
        PomView { scope: text, ..s }
    } else {
        s
    }
}

/// The state after an event.
pub open spec fn pom_step(s: PomView, e: PomEvent) -> PomView {
    match e {
        PomEvent::Start(name) => after_start(s, name@),
        PomEvent::End(name) => after_end(s, name@),
        PomEvent::Text(text) => after_text(s, text@),
        PomEvent::Other => s,
        PomEvent::Stop => s,
    }
}

/// The state after the events up to the first stop.
pub open spec fn pom_run(s: PomView, events: Seq<PomEvent>) -> PomView
    decreases events.len(),
{
    if events.len() == 0 || events[0] is Stop {
        s
    } else {
        pom_run(pom_step(s, events[0]), events.drop_first())
    }
}

/// The dependencies of compile scope that the events of a POM declare.
pub open spec fn dependencies_of(events: Seq<PomEvent>) -> Seq<Triple> {
    pom_run(pom_start(), events).found
}

/// The coordinates as text.
pub open spec fn triples(v: Seq<MavenCoordinate>) -> Seq<Triple> {
    Seq::new(v.len(), |i: int| (v[i].group_id@, v[i].artifact_id@, v[i].version@))
}

/// What has been read of a POM so far.
pub struct PomState {
    in_dependencies: bool,
    in_dependency: bool,
    in_dep_mgmt: bool,
    group: String,
    artifact: String,
    version: String,
    scope: String,
    tag: String,
    found: Vec<MavenCoordinate>,
}

impl View for PomState {
    type V = PomView;

    closed spec fn view(&self) -> PomView {
        PomView {
            in_dependencies: self.in_dependencies,
            in_dependency: self.in_dependency,
            in_dep_mgmt: self.in_dep_mgmt,
            group: self.group@,
            artifact: self.artifact@,
            version: self.version@,
            scope: self.scope@,
            tag: self.tag@,
            found: triples(self.found@),
        }
    }
}

impl PomState {
    /// The state before anything is read.
    pub fn new() -> (s: Self)
        ensures
            s@ == pom_start(),
    {
        let s = PomState {
            in_dependencies: false,
            in_dependency: false,
            in_dep_mgmt: false,
            group: String::new(),
            artifact: String::new(),
            version: String::new(),
            scope: String::new(),
            tag: String::new(),
            found: Vec::new(),
        };
        assert(triples(s.found@) =~= Seq::<Triple>::empty());
        s
    }

    /// Whether the dependency that was just closed counts.
    fn counts(&self) -> (r: bool)
        ensures
            r == counts(self@),
    {
        let scope_ok = self.scope.as_str().is_empty() || str_eq(self.scope.as_str(), "compile");
        if !scope_ok || self.group.as_str().is_empty() || self.artifact.as_str().is_empty() {
            return false;
        }
        let version = chars_of(self.version.as_str());
        version.len() > 0 && version[0] != '$'
    }

    /// Takes one event in.
    pub fn apply(&mut self, event: &PomEvent)
        ensures
            final(self)@ == pom_step(old(self)@, *event),
    {
        match event {
            PomEvent::Start(name) => {
                let n = name.as_str();
                if str_eq(n, "dependencyManagement") {
                    self.in_dep_mgmt = true;
                } else if str_eq(n, "dependencies") && !self.in_dep_mgmt {
                    self.in_dependencies = true;
                } else if str_eq(n, "dependency") && self.in_dependencies && !self.in_dep_mgmt {
                    self.in_dependency = true;
                    self.group = String::new();
                    self.artifact = String::new();
                    self.version = String::new();
                    self.scope = String::new();
                } else if self.in_dependency {
                    self.tag = name.clone();
                }
            },
            PomEvent::End(name) => {
                let n = name.as_str();
                if str_eq(n, "dependencyManagement") {
                    self.in_dep_mgmt = false;
                } else if str_eq(n, "dependencies") && !self.in_dep_mgmt {
                    self.in_dependencies = false;
                } else if str_eq(n, "dependency") && self.in_dependency {
                    let keep = self.counts();
                    self.in_dependency = false;
                    if keep {
                        let ghost before = triples(self.found@);
                        self.found.push(
                            MavenCoordinate {
                                group_id: self.group.clone(),
                                artifact_id: self.artifact.clone(),
                                version: self.version.clone(),
                            },
                        );
                        assert(triples(self.found@) =~= before.push((self.group@, self.artifact@, self.version@)));
                    }
                } else {
                    self.tag = String::new();
                }
            },
            PomEvent::Text(text) => {
                if self.in_dependency {
                    let t = self.tag.as_str();
                    if str_eq(t, "groupId") {
                        self.group = text.clone();
                    } else if str_eq(t, "artifactId") {
                        self.artifact = text.clone();
                    } else if str_eq(t, "version") {
                        self.version = text.clone();
                    } else if str_eq(t, "scope") {
                        self.scope = text.clone();
                    }
                }
            },
            PomEvent::Other => {},
            PomEvent::Stop => {},
        }
    }

    /// The dependencies found.
    pub fn into_found(self) -> (found: Vec<MavenCoordinate>)
        ensures
            triples(found@) == self@.found,
    {
        self.found
    }
}

/// The dependencies of compile scope that the events declare, up to the
/// first stop. Declarations under `dependencyManagement` do not count.
pub fn collect_dependencies(events: &Vec<PomEvent>) -> (found: Vec<MavenCoordinate>)
    ensures
        triples(found@) == dependencies_of(events@),
{
    let mut state = PomState::new();
    let mut i: usize = 0;
    assert(events@.skip(0) =~= events@);
    while i < events.len() && !is_stop(&events[i])
        invariant
            i <= events@.len(),
            pom_run(state@, events@.skip(i as int)) == pom_run(pom_start(), events@),
        decreases events.len() - i,
    {
        proof {
            assert(events@.skip(i as int).drop_first() =~= events@.skip(i + 1));
        }
        state.apply(&events[i]);
        i = i + 1;
    }
    state.into_found()
}

/// Whether the event is a stop.
fn is_stop(event: &PomEvent) -> (r: bool)
    ensures
        r == (*event is Stop),
{
    match event {
        PomEvent::Stop => true,
        _ => false,
    }
}

/// The XML reader of quick-xml, carried through as an opaque value.
#[verifier::external_type_specification]
#[verifier::external_body]
#[verifier::reject_recursive_types(R)]
pub struct ExReader<R>(quick_xml::Reader<R>);

/// Opens an XML reader on `xml` that trims the white space around text.
///
/// Trusted: `quick_xml::Reader::from_str` with `Config::trim_text(true)`.
/// Nothing is claimed of the reader.
#[verifier::external_body]
fn open_reader<'a>(xml: &'a str) -> (reader: quick_xml::Reader<&'a [u8]>) {
    let mut reader = quick_xml::Reader::from_str(xml);
    reader.config_mut().trim_text(true);
    reader
}

/// Reads the next event.
///
/// Trusted: `quick_xml::Reader::read_event`. Opening and closing tags come
/// with their raw name, text comes unescaped (empty where it cannot be
/// unescaped), the end of the input and every error are a stop, and all
/// other events are passed as `Other`. Nothing is claimed of which event
/// comes.
#[verifier::external_body]
fn next_event<'a>(reader: &mut quick_xml::Reader<&'a [u8]>) -> (event: PomEvent) {
    match reader.read_event() {
        Ok(quick_xml::events::Event::Start(e)) => PomEvent::Start(String::from_utf8_lossy(e.name().as_ref()).to_string()),
        Ok(quick_xml::events::Event::End(e)) => PomEvent::End(String::from_utf8_lossy(e.name().as_ref()).to_string()),
        Ok(quick_xml::events::Event::Text(e)) => PomEvent::Text(e.unescape().unwrap_or_default().to_string()),
        Ok(quick_xml::events::Event::Eof) => PomEvent::Stop,
        Err(_) => PomEvent::Stop,
        Ok(_) => PomEvent::Other,
    }
}

/// None of the events is a stop.
pub open spec fn no_stop(events: Seq<PomEvent>) -> bool {
    forall|i: int| 0 <= i < events.len() ==> !(#[trigger] events[i] is Stop)
}

/// Without a stop among them, the events are taken in one after the other.
proof fn lemma_run_push(s: PomView, events: Seq<PomEvent>, e: PomEvent)
    requires
        no_stop(events),
        !(e is Stop),
    ensures
        pom_run(s, events.push(e)) == pom_step(pom_run(s, events), e),
    decreases events.len(),
{
    let all = events.push(e);
    if events.len() == 0 {
        assert(pom_run(pom_step(s, e), all.drop_first()) == pom_step(s, e));
    } else {
        assert(all.drop_first() =~= events.drop_first().push(e));
        lemma_run_push(pom_step(s, events[0]), events.drop_first(), e);
    }
}

/// The dependencies of compile scope that a POM declares: the file is read
/// as XML events until its end or the first error, and the events are folded
/// as `collect_dependencies` folds them. Reading ends for good after one
/// event more than the file has bytes.
pub fn parse_pom_dependencies(pom_xml: &str) -> (found: Vec<MavenCoordinate>)
    ensures
        exists|events: Seq<PomEvent>| no_stop(events) && triples(found@) == #[trigger] dependencies_of(events),
{
    let mut reader = open_reader(pom_xml);
    let mut state = PomState::new();
    let ghost mut events: Seq<PomEvent> = Seq::empty();
    let mut left: usize = pom_xml.len();
    let mut more = true;
    while more
        invariant
            no_stop(events),
            state@ == pom_run(pom_start(), events),
        decreases
                (if more {
                    left + 1
                } else {
                    0
                }),
    {
        let event = next_event(&mut reader);
        if is_stop(&event) {
            more = false;
        } else {
            proof {
                lemma_run_push(pom_start(), events, event);
                events = events.push(event);
            }
            state.apply(&event);
            if left == 0 {
                more = false;
            } else {
                left = left - 1;
            }
        }
    }
    proof {
        assert(dependencies_of(events) == state@.found);
    }
    state.into_found()
}

} // verus!
