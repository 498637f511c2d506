//! Reading and writing the active mod order of ModsConfig.xml: which
//! identifiers it lists, what may be saved, and how the `activeMods`
//! element is rewritten while everything else is copied unchanged.
use quick_xml::events::{BytesEnd, BytesStart, BytesText, Event};
use quick_xml::{Reader, Writer};
use vstd::prelude::*;

use crate::mod_loader::all_normalizable;
use crate::models::{
    listed_packages, normalized_package, package_views, ModCollection, ModId, PackageId,
};
use crate::settings::LoadOrderStatus;
use crate::text::{chars_of, joined, push_joined, push_str, same_chars, string_views};

verus! {

/// The active identifiers that ModsConfig.xml lists, normalized; a blank
/// one makes the file invalid. `config_shown` is the file's path as it is
/// shown to the user.
pub fn config_package_ids(active_mods: Vec<String>, config_shown: &str) -> (r: Result<
    Vec<PackageId>,
    String,
>)
    ensures
        all_normalizable(string_views(active_mods@)) ==> (r matches Ok(ids) && package_views(ids@)
            == string_views(active_mods@).map_values(|s: Seq<char>| normalized_package(s))),
        !all_normalizable(string_views(active_mods@)) ==> (r matches Err(m) && m@ == config_shown@
            + " contains an empty package ID"@),
{
    match crate::mod_loader::parse_package_ids(active_mods) {
        Ok(ids) => Ok(ids),
        Err(_) => {
            let mut m = String::new();
            push_str(&mut m, config_shown);
            push_str(&mut m, " contains an empty package ID");
            Err(m)
        },
    }
}

/// Whether every active id names a mod of the collection.
pub open spec fn ids_in_range(mods: ModCollection) -> bool {
    forall|i: int| 0 <= i < mods.enabled_ids@.len() ==> (#[trigger] mods.enabled_ids@[i]).0 < mods.all@.len()
}

/// The identifiers to write as the active order. Saving is refused while
/// active mods are missing, since their entries would be lost, and when an
/// active id names no mod.
pub fn save_order_ids(mods: &ModCollection) -> (r: Result<Vec<String>, String>)
    ensures
        mods.missing_active_package_ids@.len() > 0 ==> (r matches Err(m) && m@
            == "Cannot save because these active mods were not found: "@ + joined(
            package_views(mods.missing_active_package_ids@),
            ", "@,
        )),
        mods.missing_active_package_ids@.len() == 0 && !ids_in_range(*mods) ==> (r matches Err(m)
            && m@ == "active mod index is invalid"@),
        mods.missing_active_package_ids@.len() == 0 && ids_in_range(*mods) ==> (r matches Ok(ids)
            && string_views(ids@) == listed_packages(mods.all@, mods.enabled_ids@)),
{
    if mods.missing_active_package_ids.len() > 0 {
        let mut missing: Vec<String> = Vec::new();
        for i in 0..mods.missing_active_package_ids.len()
            invariant
                string_views(missing@) == package_views(
                    mods.missing_active_package_ids@.take(i as int),
                ),
        {
            let ghost prev = missing@;
            missing.push(mods.missing_active_package_ids[i].to_text());
            assert(mods.missing_active_package_ids@.take(i + 1)
                == mods.missing_active_package_ids@.take(i as int).push(
                mods.missing_active_package_ids@[i as int],
            ));
            assert(string_views(missing@) == string_views(prev).push(
                mods.missing_active_package_ids@[i as int]@,
            ));
        }
        assert(mods.missing_active_package_ids@.take(mods.missing_active_package_ids@.len() as int)
            == mods.missing_active_package_ids@);
        let mut m = String::new();
        push_str(&mut m, "Cannot save because these active mods were not found: ");
        push_joined(&mut m, missing.as_slice(), ", ");
        return Err(m);
    }
    let mut ids: Vec<String> = Vec::new();
    for i in 0..mods.enabled_ids.len()
        invariant
            mods.missing_active_package_ids@.len() == 0,
            string_views(ids@) == listed_packages(mods.all@, mods.enabled_ids@.take(i as int)),
            forall|j: int| 0 <= j < i ==> (#[trigger] mods.enabled_ids@[j]).0 < mods.all@.len(),
    {
        let mod_id = mods.enabled_ids[i];
        assert(mods.enabled_ids@.take(i + 1).drop_last() == mods.enabled_ids@.take(i as int));
        match mods.get(mod_id) {
            Some(rimworld_mod) => {
                let ghost prev = ids@;
                ids.push(rimworld_mod.package_id.to_text());
                assert(string_views(ids@) == string_views(prev).push(rimworld_mod.package_id@));
            },
            None => {
                let mut m = String::new();
                push_str(&mut m, "active mod index is invalid");
                return Err(m);
            },
        }
    }
    assert(mods.enabled_ids@.take(mods.enabled_ids@.len() as int) == mods.enabled_ids@);
    Ok(ids)
}

/// Whether the identifiers read back from the written file are exactly the
/// requested order.
pub fn order_was_written(validated: &[PackageId], requested: &[String]) -> (r: bool)
    ensures
        r == (package_views(validated@) == string_views(requested@)),
{
    if validated.len() != requested.len() {
        assert(package_views(validated@).len() != string_views(requested@).len());
        return false;
    }
    let mut i: usize = 0;
    while i < validated.len()
        invariant
            i <= validated@.len(),
            validated@.len() == requested@.len(),
            forall|j: int| 0 <= j < i ==> validated@[j]@ == requested@[j]@,
        decreases validated@.len() - i,
    {
        let text = validated[i].to_text();
        if !(text == requested[i]) {
            assert(package_views(validated@)[i as int] != string_views(requested@)[i as int]);
            return false;
        }
        i = i + 1;
    }
    assert(package_views(validated@) == string_views(requested@));
    true
}

/// The kinds of XML events that matter when the active order is rewritten.
#[derive(Debug, Clone, Copy, PartialEq, Eq, Structural)]
pub enum ConfigEvent {
    /// The start tag of an `activeMods` element.
    ActiveModsStart,
    /// The end of the document.
    End,
    /// Anything else.
    Other,
}

/// What to do with an event while the active order is rewritten.
#[derive(Debug, Clone, Copy, PartialEq, Eq, Structural)]
pub enum RewriteStep {
    /// Copy the event to the output unchanged.
    Copy,
    /// Keep the start tag, drop the old list, write the new one and close it.
    ReplaceList,
    /// The document is complete.
    Finish,
}

/// The reason given for a second `activeMods` element.
pub open spec fn repeated_active_mods_message() -> Seq<char> {
    "ModsConfig.xml contains multiple activeMods elements"@
}

/// The reason given for a document without `activeMods`.
pub open spec fn missing_active_mods_message() -> Seq<char> {
    "ModsConfig.xml does not contain activeMods"@
}

/// The step taken for `event` when `found_active_mods` tells whether an
/// `activeMods` element was already replaced; none when the event is refused.
pub open spec fn step_outcome(found_active_mods: bool, event: ConfigEvent) -> Option<RewriteStep> {
    match event {
        ConfigEvent::Other => Some(RewriteStep::Copy),
        ConfigEvent::ActiveModsStart => if found_active_mods {
            None
        } else {
            Some(RewriteStep::ReplaceList)
        },
        ConfigEvent::End => if found_active_mods {
            Some(RewriteStep::Finish)
        } else {
            None
        },
    }
}

/// The next step of rewriting ModsConfig.xml, given whether an `activeMods`
/// element was already replaced and the event just read. The document must
/// hold exactly one `activeMods` element.
pub fn rewrite_step(found_active_mods: bool, event: ConfigEvent) -> (r: Result<RewriteStep, String>)
    ensures
        event == ConfigEvent::Other ==> r == Ok::<RewriteStep, String>(RewriteStep::Copy),
        event == ConfigEvent::ActiveModsStart && !found_active_mods ==> r == Ok::<
            RewriteStep,
            String,
        >(RewriteStep::ReplaceList),
        event == ConfigEvent::ActiveModsStart && found_active_mods ==> (r matches Err(m) && m@
            == repeated_active_mods_message()),
        event == ConfigEvent::End && found_active_mods ==> r == Ok::<RewriteStep, String>(
            RewriteStep::Finish,
        ),
        event == ConfigEvent::End && !found_active_mods ==> (r matches Err(m) && m@
            == missing_active_mods_message()),
        match step_outcome(found_active_mods, event) {
            Some(step) => r == Ok::<RewriteStep, String>(step),
            None => r is Err,
        },
{
    match event {
        ConfigEvent::Other => Ok(RewriteStep::Copy),
        ConfigEvent::ActiveModsStart => {
            if found_active_mods {
                let mut m = String::new();
                push_str(&mut m, "ModsConfig.xml contains multiple activeMods elements");
                Err(m)
            } else {
                Ok(RewriteStep::ReplaceList)
            }
        },
        ConfigEvent::End => {
            if found_active_mods {
                Ok(RewriteStep::Finish)
            } else {
                let mut m = String::new();
                push_str(&mut m, "ModsConfig.xml does not contain activeMods");
                Err(m)
            }
        },
    }
}

/// The identifiers to write when the user saves: refused while the load
/// order is unavailable, since the lists then do not reflect
/// ModsConfig.xml and saving them could empty it.
pub fn order_to_save(status: &LoadOrderStatus, mods: &ModCollection) -> (r: Result<Vec<String>, String>)
    ensures
        !(status is Ready) ==> (r matches Err(m) && m@ == "Cannot save: the load order is unavailable"@),
        status is Ready && mods.missing_active_package_ids@.len() > 0 ==> (r matches Err(m) && m@
            == "Cannot save because these active mods were not found: "@ + joined(
            package_views(mods.missing_active_package_ids@),
            ", "@,
        )),
        status is Ready && mods.missing_active_package_ids@.len() == 0 && !ids_in_range(*mods) ==> (
        r matches Err(m) && m@ == "active mod index is invalid"@),
        status is Ready && mods.missing_active_package_ids@.len() == 0 && ids_in_range(*mods) ==> (
        r matches Ok(ids) && string_views(ids@) == listed_packages(mods.all@, mods.enabled_ids@)),
{
    if !status.can_save() {
        let mut m = String::new();
        push_str(&mut m, "Cannot save: the load order is unavailable");
        return Err(m);
    }
    save_order_ids(mods)
}

/// The message of a failed file operation: the action, the path as shown
/// to the user, and the error.
pub fn path_error(action: &str, shown_path: &str, error: &str) -> (r: String)
    ensures
        r@ == action@ + " "@ + shown_path@ + ": "@ + error@,
{
    let mut m = String::new();
    push_str(&mut m, action);
    push_str(&mut m, " ");
    push_str(&mut m, shown_path);
    push_str(&mut m, ": ");
    push_str(&mut m, error);
    m
}

/// Whether an `activeMods` start occurs among `events`.
pub open spec fn seen_active_mods(events: Seq<ConfigEvent>) -> bool {
    exists|i: int| 0 <= i < events.len() && #[trigger] events[i] == ConfigEvent::ActiveModsStart
}

/// The number of `activeMods` starts among `events`.
pub open spec fn active_mods_count(events: Seq<ConfigEvent>) -> nat
    decreases events.len(),
{
    if events.len() == 0 {
        0
    } else {
        active_mods_count(events.drop_last()) + if events.last() == ConfigEvent::ActiveModsStart {
            1nat
        } else {
            0nat
        }
    }
}

/// Every step of a rewrite that reads `events` in order is accepted, each
/// step told whether an `activeMods` start came before it.
pub open spec fn all_steps_accepted(events: Seq<ConfigEvent>) -> bool {
    forall|i: int|
        0 <= i < events.len() ==> (#[trigger] step_outcome(seen_active_mods(events.take(i)), events[i])) is Some
}

/// A rewrite of ModsConfig.xml goes through to the end of the document
/// exactly when the document holds one `activeMods` element: with none,
/// the end is refused; with more, the second one is.
pub proof fn lemma_rewrite_needs_exactly_one_active_mods(events: Seq<ConfigEvent>)
    requires
        events.len() > 0,
        events.last() == ConfigEvent::End,
        forall|i: int| 0 <= i < events.len() - 1 ==> #[trigger] events[i] != ConfigEvent::End,
    ensures
        all_steps_accepted(events) <==> active_mods_count(events) == 1,
        all_steps_accepted(events) ==> step_outcome(
            seen_active_mods(events.drop_last()),
            events.last(),
        ) == Some(RewriteStep::Finish),
{
    let body = events.drop_last();
    lemma_prefix_steps(body);
    assert(events.take(body.len() as int) == body);
    assert(active_mods_count(events) == active_mods_count(body));
    if all_steps_accepted(events) {
        assert forall|i: int| 0 <= i < body.len() implies (#[trigger] step_outcome(seen_active_mods(body.take(i)), body[i])) is Some by {
            assert(events.take(i) == body.take(i));
            assert(step_outcome(seen_active_mods(events.take(i)), events[i]) is Some);
        }
        assert(step_outcome(seen_active_mods(events.take(body.len() as int)), events[body.len() as int]) is Some);
    } else {
        if active_mods_count(body) == 1 {
            assert forall|i: int| 0 <= i < events.len() implies (#[trigger] step_outcome(seen_active_mods(events.take(i)), events[i])) is Some by {
                if i < body.len() {
                    assert(events.take(i) == body.take(i));
                    assert(events[i] == body[i]);
                }
            }
        }
    }
}

/// Over a body without the end, all steps are accepted exactly when at most
/// one `activeMods` start occurs, and a start was seen exactly when one did.
proof fn lemma_prefix_steps(body: Seq<ConfigEvent>)
    requires
        forall|i: int| 0 <= i < body.len() ==> #[trigger] body[i] != ConfigEvent::End,
    ensures
        (forall|i: int|
            0 <= i < body.len() ==> (#[trigger] step_outcome(seen_active_mods(body.take(i)), body[i])) is Some)
            <==> active_mods_count(body) <= 1,
        seen_active_mods(body) <==> active_mods_count(body) >= 1,
    decreases body.len(),
{
    if body.len() > 0 {
        let init = body.drop_last();
        let e = body.last();
        assert forall|i: int| 0 <= i < init.len() implies #[trigger] init[i] != ConfigEvent::End by {
            assert(init[i] == body[i]);
        }
        lemma_prefix_steps(init);
        assert(body.take(init.len() as int) == init);
        assert(seen_active_mods(body) <==> (seen_active_mods(init) || e == ConfigEvent::ActiveModsStart)) by {
            if seen_active_mods(body) {
                let i = choose|i: int| 0 <= i < body.len() && #[trigger] body[i] == ConfigEvent::ActiveModsStart;
                if i < init.len() {
                    assert(init[i] == body[i]);
                }
            }
            if seen_active_mods(init) {
                let i = choose|i: int| 0 <= i < init.len() && #[trigger] init[i] == ConfigEvent::ActiveModsStart;
                assert(body[i] == init[i]);
            }
            if e == ConfigEvent::ActiveModsStart {
                assert(body[body.len() - 1] == e);
            }
        }
        let all_body = forall|i: int|
            0 <= i < body.len() ==> (#[trigger] step_outcome(seen_active_mods(body.take(i)), body[i])) is Some;
        let all_init = forall|i: int|
            0 <= i < init.len() ==> (#[trigger] step_outcome(seen_active_mods(init.take(i)), init[i])) is Some;
        assert(all_body <==> (all_init && step_outcome(seen_active_mods(init), e) is Some)) by {
            if all_body {
                assert forall|i: int| 0 <= i < init.len() implies (#[trigger] step_outcome(seen_active_mods(init.take(i)), init[i])) is Some by {
                    assert(init.take(i) == body.take(i));
                    assert(init[i] == body[i]);
                    assert(step_outcome(seen_active_mods(body.take(i)), body[i]) is Some);
                }
                assert(step_outcome(seen_active_mods(body.take(init.len() as int)), body[init.len() as int]) is Some);
            }
            if all_init && step_outcome(seen_active_mods(init), e) is Some {
                assert forall|i: int| 0 <= i < body.len() implies (#[trigger] step_outcome(seen_active_mods(body.take(i)), body[i])) is Some by {
                    if i < init.len() {
                        assert(init.take(i) == body.take(i));
                        assert(init[i] == body[i]);
                    }
                }
            }
        }
    }
}


// ---------------------------------------------------------------------------
// Rewriting the activeMods element
// ---------------------------------------------------------------------------

/// One event of ModsConfig.xml as quick-xml reads it: the element name when
/// it is a start tag or an end tag, and the text quick-xml's writer gives
/// for it.
#[derive(Debug, Clone, PartialEq, Eq)]
pub struct XmlPiece {
    pub start_name: Option<String>,
    pub end_name: Option<String>,
    pub written: Vec<u8>,
}

/// A piece as values: start name, end name, written text.
pub type XmlPieceView = (Option<Seq<char>>, Option<Seq<char>>, Seq<u8>);

pub open spec fn text_option(t: Option<String>) -> Option<Seq<char>> {
    match t {
        Some(s) => Some(s@),
        None => None,
    }
}

impl View for XmlPiece {
    type V = XmlPieceView;

    open spec fn view(&self) -> XmlPieceView {
        (text_option(self.start_name), text_option(self.end_name), self.written@)
    }
}

pub open spec fn piece_views(pieces: Seq<XmlPiece>) -> Seq<XmlPieceView> {
    pieces.map_values(|p: XmlPiece| p@)
}

/// What quick-xml reads from the text of a document: its events up to the
/// end of the document or to the first error, and that error's message.
pub uninterp spec fn config_xml_events(text: Seq<char>) -> (Seq<XmlPieceView>, Option<Seq<char>>);

/// `Reader::read_event` on a reader made by `Reader::from_str(text)`,
/// called until the end of the document or the first error; each event is
/// recorded with its start or end name (`QName`) and what
/// `Writer::write_event` on a fresh `Writer::new` writes for it. Claimed:
/// the events and the error message are the named result of the text, as
/// the reader keeps no state but the text and its default configuration.
#[verifier::external_body]
fn read_config_events(text: &str) -> (r: (Vec<XmlPiece>, Option<String>))
    ensures
        (piece_views(r.0@), text_option(r.1)) == config_xml_events(text@),
{
    let mut reader = Reader::from_str(text);
    let mut pieces = Vec::new();
    loop {
        let event = match reader.read_event() {
            Ok(Event::Eof) => return (pieces, None),
            Ok(event) => event,
            Err(error) => return (pieces, Some(error.to_string())),
        };
        let start_name = if let Event::Start(s) = &event { Some(s.name().0.to_owned()) } else { None };
        let end_name = if let Event::End(e) = &event { Some(e.name().0.to_owned()) } else { None };
        let mut writer = Writer::new(Vec::new());
        let _ = writer.write_event(event);
        pieces.push(XmlPiece { start_name, end_name, written: writer.into_inner() });
    }
}

/// The kinds of events that are written anew.
#[derive(Debug, Clone, Copy, PartialEq, Eq, Structural)]
pub enum NewEvent {
    /// A start tag with the given name.
    Start,
    /// Text, escaped by quick-xml.
    Text,
    /// An end tag with the given name.
    End,
}

/// What quick-xml's writer writes for a new event of `kind` made from `text`.
pub uninterp spec fn written_event(kind: NewEvent, text: Seq<char>) -> Seq<u8>;

/// `Writer::write_event` on a fresh `Writer::new`, for `BytesStart::new`,
/// `BytesText::new` (which escapes the text) or `BytesEnd::new` of `text`,
/// the events `ElementWriter::write_text_content` writes for an element.
/// Claimed: the bytes are the named result of the kind and the text.
#[verifier::external_body]
fn write_new_event(kind: NewEvent, text: &str) -> (r: Vec<u8>)
    ensures
        r@ == written_event(kind, text@),
{
    let event = match kind {
        NewEvent::Start => Event::Start(BytesStart::new(text)),
        NewEvent::Text => Event::Text(BytesText::new(text)),
        NewEvent::End => Event::End(BytesEnd::new(text)),
    };
    let mut writer = Writer::new(Vec::new());
    let _ = writer.write_event(event);
    writer.into_inner()
}

/// The message of quick-xml's `IllFormedError::MissingEndTag` for `name`,
/// as `Error::IllFormed` displays it.
#[verifier::external_body]
fn missing_end_message(name: &str) -> (r: String)
    ensures
        r@ == "ill-formed document: start tag not closed: `</"@ + name@
            + ">` not found before end of input"@,
{
    quick_xml::Error::IllFormed(quick_xml::errors::IllFormedError::MissingEndTag(name.to_owned())).to_string()
}

pub open spec fn active_mods_name() -> Seq<char> {
    "activeMods"@
}

/// The error when the document ends inside `activeMods`.
pub open spec fn unclosed_active_mods_message() -> Seq<char> {
    "ill-formed document: start tag not closed: `</"@ + active_mods_name()
        + ">` not found before end of input"@
}

/// One listed package in the new `activeMods` element.
pub open spec fn written_item(id: Seq<char>) -> Seq<u8> {
    written_event(NewEvent::Text, "\n    "@) + written_event(NewEvent::Start, "li"@) + written_event(
        NewEvent::Text,
        id,
    ) + written_event(NewEvent::End, "li"@)
}

/// The listed packages, one item each, in order.
pub open spec fn written_items(ids: Seq<Seq<char>>) -> Seq<u8>
    decreases ids.len(),
{
    if ids.len() == 0 {
        Seq::empty()
    } else {
        written_items(ids.drop_last()) + written_item(ids.last())
    }
}

/// What closes the new `activeMods` element: its items, a line break and
/// the end tag.
pub open spec fn written_active_mods_tail(ids: Seq<Seq<char>>) -> Seq<u8> {
    written_items(ids) + written_event(NewEvent::Text, "\n  "@) + written_event(
        NewEvent::End,
        active_mods_name(),
    )
}

/// `r` with `prefix` in front of its output.
pub open spec fn prefixed(prefix: Seq<u8>, r: Result<Seq<u8>, Seq<char>>) -> Result<Seq<u8>, Seq<char>> {
    match r {
        Ok(s) => Ok(prefix + s),
        Err(e) => Err(e),
    }
}

/// The rewrite of the events from position `i` on, with `found` telling
/// whether an `activeMods` element was met, and `skipping` the nesting
/// depth within it while its old content is dropped. Every event is copied
/// except the old content of `activeMods`, whose end is replaced by the new
/// items; a read error, a second `activeMods`, a document without one, or
/// one whose `activeMods` is not closed is an error.
pub open spec fn rewritten_from(
    ps: Seq<XmlPieceView>,
    err: Option<Seq<char>>,
    ids: Seq<Seq<char>>,
    i: int,
    found: bool,
    skipping: Option<nat>,
) -> Result<Seq<u8>, Seq<char>>
    decreases ps.len() - i,
{
    if i < 0 || i >= ps.len() {
        match err {
            Some(e) => Err(e),
            None => match skipping {
                Some(_) => Err(unclosed_active_mods_message()),
                None => if found {
                    Ok(Seq::empty())
                } else {
                    Err(missing_active_mods_message())
                },
            },
        }
    } else {
        match skipping {
            Some(depth) => if ps[i].0 == Some(active_mods_name()) {
                rewritten_from(ps, err, ids, i + 1, found, Some(depth + 1))
            } else if ps[i].1 == Some(active_mods_name()) {
                if depth == 0 {
                    prefixed(
                        written_active_mods_tail(ids),
                        rewritten_from(ps, err, ids, i + 1, found, None),
                    )
                } else {
                    rewritten_from(ps, err, ids, i + 1, found, Some((depth - 1) as nat))
                }
            } else {
                rewritten_from(ps, err, ids, i + 1, found, Some(depth))
            },
            None => if ps[i].0 == Some(active_mods_name()) {
                if found {
                    Err(repeated_active_mods_message())
                } else {
                    prefixed(ps[i].2, rewritten_from(ps, err, ids, i + 1, true, Some(0)))
                }
            } else {
                prefixed(ps[i].2, rewritten_from(ps, err, ids, i + 1, found, None))
            },
        }
    }
}

/// The rewritten document: the events with the content of the one
/// `activeMods` element replaced by items for `ids`.
pub open spec fn rewritten_config(ps: Seq<XmlPieceView>, err: Option<Seq<char>>, ids: Seq<Seq<char>>) -> Result<
    Seq<u8>,
    Seq<char>,
> {
    rewritten_from(ps, err, ids, 0, false, None)
}

pub open spec fn bytes_outcome(r: Result<Vec<u8>, String>) -> Result<Seq<u8>, Seq<char>> {
    match r {
        Ok(v) => Ok(v@),
        Err(e) => Err(e@),
    }
}

proof fn lemma_prefixed_twice(a: Seq<u8>, b: Seq<u8>, r: Result<Seq<u8>, Seq<char>>)
    ensures
        prefixed(a, prefixed(b, r)) == prefixed(a + b, r),
{
    if let Ok(s) = r {
        assert(a + (b + s) == (a + b) + s);
    }
}

/// Appends the new items, the line break and the end tag of `activeMods`.
fn write_active_mods_tail(out: &mut Vec<u8>, package_ids: &Vec<String>)
    ensures
        final(out)@ == old(out)@ + written_active_mods_tail(string_views(package_ids@)),
{
    let ghost start = out@;
    let mut k: usize = 0;
    while k < package_ids.len()
        invariant
            k <= package_ids@.len(),
            out@ == start + written_items(string_views(package_ids@.take(k as int))),
        decreases package_ids@.len() - k,
    {
        let mut piece = write_new_event(NewEvent::Text, "\n    ");
        out.append(&mut piece);
        let mut piece = write_new_event(NewEvent::Start, "li");
        out.append(&mut piece);
        let mut piece = write_new_event(NewEvent::Text, package_ids[k].as_str());
        out.append(&mut piece);
        let mut piece = write_new_event(NewEvent::End, "li");
        out.append(&mut piece);
        proof {
            let ids = string_views(package_ids@.take(k + 1));
            assert(ids.drop_last() == string_views(package_ids@.take(k as int)));
            assert(ids.last() == package_ids@[k as int]@);
            assert(out@ == start + written_items(ids));
        }
        k = k + 1;
    }
    assert(package_ids@.take(package_ids@.len() as int) == package_ids@);
    let mut piece = write_new_event(NewEvent::Text, "\n  ");
    out.append(&mut piece);
    let mut piece = write_new_event(NewEvent::End, "activeMods");
    out.append(&mut piece);
}

/// Rewrites the events read from ModsConfig.xml: every event is copied,
/// except that the content of the one `activeMods` element becomes one
/// `li` item per identifier of `package_ids`. `read_error` is the error
/// that ended the reading, if any.
pub fn rewrite_config_events(
    pieces: &Vec<XmlPiece>,
    read_error: &Option<String>,
    package_ids: &Vec<String>,
) -> (r: Result<Vec<u8>, String>)
    ensures
        bytes_outcome(r) == rewritten_config(
            piece_views(pieces@),
            text_option(*read_error),
            string_views(package_ids@),
        ),
{
    let ghost ps = piece_views(pieces@);
    let ghost err = text_option(*read_error);
    let ghost ids = string_views(package_ids@);
    let active_mods = chars_of("activeMods");
    let mut out: Vec<u8> = Vec::new();
    let mut found = false;
    let mut skipping: Option<usize> = None;
    let mut i: usize = 0;
    while i < pieces.len()
        invariant
            i <= pieces@.len(),
            ps == piece_views(pieces@),
            err == text_option(*read_error),
            ids == string_views(package_ids@),
            active_mods@ == active_mods_name(),
            skipping matches Some(d) ==> d <= i,
            rewritten_config(ps, err, ids) == prefixed(
                out@,
                rewritten_from(
                    ps,
                    err,
                    ids,
                    i as int,
                    found,
                    match skipping {
                        Some(d) => Some(d as nat),
                        None => None,
                    },
                ),
            ),
        decreases pieces@.len() - i,
    {
        let piece = &pieces[i];
        assert(ps[i as int] == piece@);
        let is_start = match &piece.start_name {
            Some(name) => same_chars(chars_of(name.as_str()).as_slice(), active_mods.as_slice()),
            None => false,
        };
        let is_end = match &piece.end_name {
            Some(name) => same_chars(chars_of(name.as_str()).as_slice(), active_mods.as_slice()),
            None => false,
        };
        assert(is_start == (ps[i as int].0 == Some(active_mods_name())));
        assert(is_end == (ps[i as int].1 == Some(active_mods_name())));
        match skipping {
            Some(depth) => {
                if is_start {
                    skipping = Some(depth + 1);
                } else if is_end {
                    if depth == 0 {
                        let ghost before = out@;
                        write_active_mods_tail(&mut out, package_ids);
                        proof {
                            lemma_prefixed_twice(
                                before,
                                written_active_mods_tail(ids),
                                rewritten_from(ps, err, ids, i + 1, found, None),
                            );
                        }
                        skipping = None;
                    } else {
                        skipping = Some(depth - 1);
                    }
                }
            },
            None => {
                let kind = if is_start {
                    ConfigEvent::ActiveModsStart
                } else {
                    ConfigEvent::Other
                };
                match rewrite_step(found, kind) {
                    Err(message) => {
                        return Err(message);
                    },
                    Ok(step) => {
                        let ghost before = out@;
                        let mut written = piece.written.clone();
                        out.append(&mut written);
                        proof {
                            lemma_prefixed_twice(
                                before,
                                ps[i as int].2,
                                rewritten_from(
                                    ps,
                                    err,
                                    ids,
                                    i + 1,
                                    found || is_start,
                                    if is_start {
                                        Some(0nat)
                                    } else {
                                        None
                                    },
                                ),
                            );
                        }
                        if step == RewriteStep::ReplaceList {
                            found = true;
                            skipping = Some(0);
                        }
                    },
                }
            },
        }
        i = i + 1;
    }
    match read_error {
        Some(message) => Err(message.clone()),
        None => match skipping {
            Some(_) => Err(missing_end_message("activeMods")),
            None => match rewrite_step(found, ConfigEvent::End) {
                Ok(_) => Ok(out),
                Err(message) => Err(message),
            },
        },
    }
}

/// ModsConfig.xml's text with the content of its one `activeMods` element
/// replaced by one `li` item per identifier of `package_ids`; everything
/// else is written back as quick-xml reads it.
pub fn replace_active_mods(original_xml: &str, package_ids: &Vec<String>) -> (r: Result<Vec<u8>, String>)
    ensures
        bytes_outcome(r) == rewritten_config(
            config_xml_events(original_xml@).0,
            config_xml_events(original_xml@).1,
            string_views(package_ids@),
        ),
{
    let (pieces, read_error) = read_config_events(original_xml);
    rewrite_config_events(&pieces, &read_error, package_ids)
}

} // verus!
