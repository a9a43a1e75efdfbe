//! Document synchronization state.
//!
//! Tracks, per file identifier, the version last announced to the server
//! and the file's modification timestamp at that moment, and decides on
//! each access whether the file must be announced as newly opened,
//! announced as changed, or left alone. Reading the file and delivering
//! the announcements is the driver's job; the decisions and the recorded
//! state are verified here.

use vstd::prelude::*;
use vstd::string::*;
use crate::json::JsonValue;
use crate::utils::str_eq;

verus! {

/// Checks if timestamp `a` is newer than timestamp `b`.
pub fn is_newer(a: u64, b: u64) -> (r: bool)
    ensures
        r == (a > b),
{
    a > b
}

/// What is remembered about one announced document.
#[derive(Debug)]
pub struct DocEntry {
    pub uri: String,
    /// Announced version, starting at 1.
    pub version: u32,
    /// The file's modification timestamp when last announced.
    pub mtime: u64,
}

/// The first tracked entry for `uri`, scanning in order.
pub open spec fn find_doc(docs: Seq<DocEntry>, uri: Seq<char>) -> Option<DocEntry>
    decreases docs.len(),
{
    if docs.len() == 0 {
        None
    } else if docs[0].uri@ == uri {
        Some(docs[0])
    } else {
        find_doc(docs.drop_first(), uri)
    }
}

/// The mapping from open uri to its document state.
#[derive(Debug)]
pub struct DocumentManager {
    pub docs: Vec<DocEntry>,
}

/// What a document access requires before the query may be sent.
#[derive(Clone, Copy, Debug, PartialEq, Eq, Structural)]
pub enum SyncAction {
    /// Announce the document as opened, with this (first) version.
    Open { version: u32 },
    /// Announce the full replacement text, with this next version.
    Change { version: u32 },
    /// The recorded timestamp is not older than the file: announce nothing.
    UpToDate,
}

/// The decision for one access: an untracked uri is opened at version 1; a
/// tracked one whose file is strictly newer than the record is re-announced
/// with the next version; otherwise nothing is to be done.
pub open spec fn sync_action_spec(docs: Seq<DocEntry>, uri: Seq<char>, mtime: u64) -> SyncAction {
    match find_doc(docs, uri) {
        None => SyncAction::Open { version: 1 },
        Some(e) => if mtime > e.mtime {
            SyncAction::Change { version: (e.version + 1) as u32 }
        } else {
            SyncAction::UpToDate
        },
    }
}

impl DocumentManager {
    /// The tracked entries.
    pub open spec fn docs_view(self) -> Seq<DocEntry> {
        self.docs@
    }

    /// The tracked state of `uri`.
    pub open spec fn doc(self, uri: Seq<char>) -> Option<DocEntry> {
        find_doc(self.docs@, uri)
    }

    pub fn new() -> (m: DocumentManager)
        ensures
            m.docs_view().len() == 0,
            forall|u: Seq<char>| m.doc(u) is None,
    {
        DocumentManager { docs: Vec::new() }
    }

    /// Decides what announcement, if any, the file needs before a query,
    /// given its current modification timestamp.
    pub fn sync_action(&self, uri: &str, mtime: u64) -> (a: SyncAction)
        requires
            self.doc(uri@) matches Some(e) ==> e.version < u32::MAX,
        ensures
            a == sync_action_spec(self.docs_view(), uri@, mtime),
    {
        proof {
            assert(self.docs@.skip(0) =~= self.docs@);
        }
        let mut i: usize = 0;
        while i < self.docs.len()
            invariant
                0 <= i <= self.docs@.len(),
                self.doc(uri@) matches Some(e) ==> e.version < u32::MAX,
                find_doc(self.docs@, uri@) == find_doc(self.docs@.skip(i as int), uri@),
            decreases self.docs@.len() - i,
        {
            let e = &self.docs[i];
            proof {
                assert(self.docs@.skip(i as int)[0] == self.docs@[i as int]);
                assert(self.docs@.skip(i as int).drop_first() =~= self.docs@.skip(i + 1));
            }
            if str_eq(e.uri.as_str(), uri) {
                if is_newer(mtime, e.mtime) {
                    return SyncAction::Change { version: e.version + 1 };
                }
                return SyncAction::UpToDate;
            }
            i = i + 1;
        }
        proof {
            assert(self.docs@.skip(self.docs@.len() as int) =~= Seq::<DocEntry>::empty());
        }
        SyncAction::Open { version: 1 }
    }

    /// The version last announced for `uri`, where it is tracked.
    pub fn version_of(&self, uri: &str) -> (r: Option<u32>)
        ensures
            match r {
                Some(v) => self.doc(uri@) matches Some(e) && e.version == v,
                None => self.doc(uri@) is None,
            },
    {
        proof {
            assert(self.docs@.skip(0) =~= self.docs@);
        }
        let mut i: usize = 0;
        while i < self.docs.len()
            invariant
                0 <= i <= self.docs@.len(),
                find_doc(self.docs@, uri@) == find_doc(self.docs@.skip(i as int), uri@),
            decreases self.docs@.len() - i,
        {
            let e = &self.docs[i];
            proof {
                assert(self.docs@.skip(i as int)[0] == self.docs@[i as int]);
                assert(self.docs@.skip(i as int).drop_first() =~= self.docs@.skip(i + 1));
            }
            if str_eq(e.uri.as_str(), uri) {
                return Some(e.version);
            }
            i = i + 1;
        }
        proof {
            assert(self.docs@.skip(self.docs@.len() as int) =~= Seq::<DocEntry>::empty());
        }
        None
    }

    /// Records that `uri` was announced with `version` at file timestamp
    /// `mtime`; every other uri's state is untouched.
    pub fn commit(&mut self, uri: &str, version: u32, mtime: u64)
        ensures
            final(self).doc(uri@) matches Some(e) && e.uri@ == uri@ && e.version == version
                && e.mtime == mtime,
            forall|u: Seq<char>|
                u != uri@ ==> final(self).doc(u) == old(self).doc(u),
    {
        let ghost orig = self.docs@;
        let mut i: usize = 0;
        while i < self.docs.len()
            invariant
                orig == self.docs@,
                orig == old(self).docs@,
                0 <= i <= self.docs@.len(),
                forall|k: int| 0 <= k < i ==> self.docs@[k].uri@ != uri@,
            decreases self.docs@.len() - i,
        {
            let e = &self.docs[i];
            if str_eq(e.uri.as_str(), uri) {
                let mut entry = self.docs.remove(i);
                entry.version = version;
                entry.mtime = mtime;
                self.docs.insert(i, entry);
                proof {
                    let e2 = DocEntry { uri: orig[i as int].uri, version, mtime };
                    assert(self.docs@ =~= orig.update(i as int, e2));
                    lemma_find_doc_update_same(orig, i as int, e2);
                    assert forall|u: Seq<char>| u != uri@ implies self.doc(u) == old(self).doc(
                        u,
                    ) by {
                        lemma_find_doc_update_other(orig, i as int, e2, u);
                        assert(old(self).docs@ == orig);
                    }
                }
                return;
            }
            i = i + 1;
        }
        let entry = DocEntry { uri: uri.to_owned(), version, mtime };
        let ghost e2 = entry;
        self.docs.push(entry);
        proof {
            lemma_find_doc_push_new(orig, e2);
            assert forall|u: Seq<char>| u != uri@ implies self.doc(u) == old(self).doc(u) by {
                lemma_find_doc_push_other(orig, e2, u);
                assert(old(self).docs@ == orig);
            }
        }
    }

    /// Hands out every tracked uri, in order, and forgets them all: the
    /// driver sends a best-effort close announcement for each, and the map
    /// is cleared whatever those sends did.
    pub fn close_all(&mut self) -> (uris: Vec<String>)
        ensures
            final(self).docs_view().len() == 0,
            forall|u: Seq<char>| final(self).doc(u) is None,
            uris@.len() == old(self).docs_view().len(),
            forall|k: int|
                0 <= k < uris@.len() ==> uris@[k]@ == old(self).docs_view()[k].uri@,
    {
        let mut uris: Vec<String> = Vec::new();
        let ghost orig = self.docs@;
        let mut i: usize = 0;
        while i < self.docs.len()
            invariant
                orig == self.docs@,
                0 <= i <= self.docs@.len(),
                uris@.len() == i as nat,
                forall|k: int| 0 <= k < i ==> uris@[k]@ == self.docs@[k].uri@,
            decreases self.docs@.len() - i,
        {
            let e = &self.docs[i];
            uris.push(e.uri.clone());
            i = i + 1;
        }
        self.docs = Vec::new();
        uris
    }
}

/// Updating the first entry for its uri in place makes the lookup yield
/// the new entry.
proof fn lemma_find_doc_update_same(docs: Seq<DocEntry>, i: int, e2: DocEntry)
    requires
        0 <= i < docs.len(),
        docs[i].uri@ == e2.uri@,
        forall|k: int| 0 <= k < i ==> docs[k].uri@ != e2.uri@,
    ensures
        find_doc(docs.update(i, e2), e2.uri@) == Some(e2),
    decreases i,
{
    let docs2 = docs.update(i, e2);
    if i == 0 {
        assert(docs2[0] == e2);
    } else {
        assert(docs2[0] == docs[0]);
        assert(docs2.drop_first() =~= docs.drop_first().update(i - 1, e2));
        assert(docs.drop_first()[i - 1] == docs[i]);
        lemma_find_doc_update_same(docs.drop_first(), i - 1, e2);
    }
}

/// Replacing an entry of one uri leaves every other uri's lookup alone.
proof fn lemma_find_doc_update_other(docs: Seq<DocEntry>, i: int, e2: DocEntry, u: Seq<char>)
    requires
        0 <= i < docs.len(),
        docs[i].uri@ == e2.uri@,
        u != e2.uri@,
    ensures
        find_doc(docs.update(i, e2), u) == find_doc(docs, u),
    decreases i,
{
    let docs2 = docs.update(i, e2);
    if i == 0 {
        assert(docs2[0] == e2);
        assert(docs2.drop_first() =~= docs.drop_first());
    } else {
        assert(docs2[0] == docs[0]);
        assert(docs2.drop_first() =~= docs.drop_first().update(i - 1, e2));
        assert(docs.drop_first()[i - 1] == docs[i]);
        lemma_find_doc_update_other(docs.drop_first(), i - 1, e2, u);
    }
}

/// Appending an entry for a uri not yet tracked makes it found.
proof fn lemma_find_doc_push_new(docs: Seq<DocEntry>, e: DocEntry)
    requires
        forall|k: int| 0 <= k < docs.len() ==> docs[k].uri@ != e.uri@,
    ensures
        find_doc(docs.push(e), e.uri@) == Some(e),
    decreases docs.len(),
{
    if docs.len() == 0 {
        assert(docs.push(e)[0] == e);
    } else {
        assert(docs.push(e)[0] == docs[0]);
        assert(docs.push(e).drop_first() =~= docs.drop_first().push(e));
        lemma_find_doc_push_new(docs.drop_first(), e);
    }
}

/// Appending an entry leaves every other uri's lookup alone.
proof fn lemma_find_doc_push_other(docs: Seq<DocEntry>, e: DocEntry, u: Seq<char>)
    requires
        u != e.uri@,
    ensures
        find_doc(docs.push(e), u) == find_doc(docs, u),
    decreases docs.len(),
{
    if docs.len() == 0 {
        assert(docs.push(e)[0] == e);
        assert(docs.push(e).drop_first() =~= Seq::<DocEntry>::empty());
        assert(find_doc(Seq::<DocEntry>::empty(), u) is None);
        assert(find_doc(docs.push(e), u) == find_doc(docs.push(e).drop_first(), u));
    } else {
        assert(docs.push(e)[0] == docs[0]);
        assert(docs.push(e).drop_first() =~= docs.drop_first().push(e));
        lemma_find_doc_push_other(docs.drop_first(), e, u);
    }
}

/// Document-sync idempotence: once an announcement is recorded, a second
/// access to the file with an unchanged timestamp asks for no
/// announcement.
pub proof fn lemma_sync_idempotent(m: DocumentManager, uri: Seq<char>, mtime: u64)
    requires
        m.doc(uri) matches Some(e) && e.mtime >= mtime,
    ensures
        sync_action_spec(m.docs_view(), uri, mtime) == SyncAction::UpToDate,
{
}

/// Document sync on modification: a tracked file whose timestamp moved
/// past the recorded one is announced again with exactly the next version.
pub proof fn lemma_sync_on_modification(m: DocumentManager, uri: Seq<char>, mtime: u64)
    requires
        m.doc(uri) matches Some(e) && mtime > e.mtime,
    ensures
        sync_action_spec(m.docs_view(), uri, mtime) == (SyncAction::Change {
            version: (m.doc(uri)->Some_0.version + 1) as u32,
        }),
{
}

/// The open announcement's parameters: uri, language id, version, and the
/// full text.
pub fn did_open_params(uri: &str, language_id: &str, version: u32, text: &str) -> (r: JsonValue)
    ensures
        r matches JsonValue::Object(f) && f@.len() == 1 && f@[0].0@ == "textDocument"@ && (
        f@[0].1 matches JsonValue::Object(d) && {
            &&& d@.len() == 4
            &&& d@[0].0@ == "uri"@ && (d@[0].1 matches JsonValue::Str(v) && v@ == uri@)
            &&& d@[1].0@ == "languageId"@ && (d@[1].1 matches JsonValue::Str(v) && v@
                == language_id@)
            &&& d@[2].0@ == "version"@ && d@[2].1 == JsonValue::Int(version as i128)
            &&& d@[3].0@ == "text"@ && (d@[3].1 matches JsonValue::Str(v) && v@ == text@)
        }),
{
    let mut d: Vec<(String, JsonValue)> = Vec::new();
    d.push((String::from_str("uri"), JsonValue::Str(uri.to_owned())));
    d.push((String::from_str("languageId"), JsonValue::Str(language_id.to_owned())));
    d.push((String::from_str("version"), JsonValue::Int(version as i128)));
    d.push((String::from_str("text"), JsonValue::Str(text.to_owned())));
    let mut f: Vec<(String, JsonValue)> = Vec::new();
    f.push((String::from_str("textDocument"), JsonValue::Object(d)));
    JsonValue::Object(f)
}

/// The change announcement's parameters: uri and version, and one content
/// change holding the full replacement text.
pub fn did_change_params(uri: &str, version: u32, text: &str) -> (r: JsonValue)
    ensures
        r matches JsonValue::Object(f) && {
            &&& f@.len() == 2
            &&& f@[0].0@ == "textDocument"@ && (f@[0].1 matches JsonValue::Object(d) && {
                &&& d@.len() == 2
                &&& d@[0].0@ == "uri"@ && (d@[0].1 matches JsonValue::Str(v) && v@ == uri@)
                &&& d@[1].0@ == "version"@ && d@[1].1 == JsonValue::Int(version as i128)
            })
            &&& f@[1].0@ == "contentChanges"@ && (f@[1].1 matches JsonValue::Array(cs) && cs@.len()
                == 1 && (cs@[0] matches JsonValue::Object(c) && c@.len() == 1 && c@[0].0@ == "text"@
                && (c@[0].1 matches JsonValue::Str(v) && v@ == text@)))
        },
{
    let mut d: Vec<(String, JsonValue)> = Vec::new();
    d.push((String::from_str("uri"), JsonValue::Str(uri.to_owned())));
    d.push((String::from_str("version"), JsonValue::Int(version as i128)));
    let mut c: Vec<(String, JsonValue)> = Vec::new();
    c.push((String::from_str("text"), JsonValue::Str(text.to_owned())));
    let mut cs: Vec<JsonValue> = Vec::new();
    cs.push(JsonValue::Object(c));
    let mut f: Vec<(String, JsonValue)> = Vec::new();
    f.push((String::from_str("textDocument"), JsonValue::Object(d)));
    f.push((String::from_str("contentChanges"), JsonValue::Array(cs)));
    JsonValue::Object(f)
}

/// The close announcement's parameters: the uri alone.
pub fn did_close_params(uri: &str) -> (r: JsonValue)
    ensures
        r matches JsonValue::Object(f) && f@.len() == 1 && f@[0].0@ == "textDocument"@ && (
        f@[0].1 matches JsonValue::Object(d) && d@.len() == 1 && d@[0].0@ == "uri"@ && (
        d@[0].1 matches JsonValue::Str(v) && v@ == uri@)),
{
    let mut d: Vec<(String, JsonValue)> = Vec::new();
    d.push((String::from_str("uri"), JsonValue::Str(uri.to_owned())));
    let mut f: Vec<(String, JsonValue)> = Vec::new();
    f.push((String::from_str("textDocument"), JsonValue::Object(d)));
    JsonValue::Object(f)
}

} // verus!
