//! The session manager: routes lifecycle events to the session of their
//! document identity, creating one lazily on open and removing it on close.
//!
//! An event for an identity with no session — an edit delivered after close,
//! or before open — is a silent no-op, never a fault: the host may deliver
//! events out of order during teardown races, and one document's traffic
//! must have no observable effect on any other document's session.

use vstd::prelude::*;

use crate::edit::LineIndex;
use crate::edit::TextDelta;
use crate::edit::delta_ok;
use crate::edit::spec_translate;
use crate::session::DocumentSession;
use crate::session::ParseAction;
use crate::engine::is_marked;
use crate::engine::is_shifted;
use crate::engine::node_bounded;
use crate::registry::resolve_spec;
use crate::tree::SyntaxNode;
use crate::walker::changed_kinds_spec;

verus! {

/// The opaque, process-unique key of one open document.
pub type DocumentId = u64;

/// First-match lookup over the session list.
pub open spec fn lookup(s: Seq<(DocumentId, DocumentSession)>, id: DocumentId) -> Option<
    DocumentSession,
>
    decreases s.len(),
{
    if s.len() == 0 {
        None
    } else if s[0].0 == id {
        Some(s[0].1)
    } else {
        lookup(s.drop_first(), id)
    }
}

/// A missing key misses every entry.
proof fn lemma_lookup_none(s: Seq<(DocumentId, DocumentSession)>, id: DocumentId)
    requires
        lookup(s, id) is None,
    ensures
        forall|i: int| 0 <= i < s.len() ==> (#[trigger] s[i]).0 != id,
    decreases s.len(),
{
    if s.len() > 0 {
        lemma_lookup_none(s.drop_first(), id);
        assert forall|i: int| 0 <= i < s.len() implies (#[trigger] s[i]).0 != id by {
            if i > 0 {
                assert(s.drop_first()[i - 1] == s[i]);
            }
        }
    }
}

/// Lookup skips a prefix known to miss.
proof fn lemma_lookup_skip(s: Seq<(DocumentId, DocumentSession)>, id: DocumentId, i: int)
    requires
        0 <= i <= s.len(),
        forall|j: int| 0 <= j < i ==> (#[trigger] s[j]).0 != id,
    ensures
        lookup(s, id) == lookup(s.subrange(i, s.len() as int), id),
    decreases i,
{
    if i > 0 {
        assert forall|j: int| 0 <= j < i - 1 implies (#[trigger] s.drop_first()[j]).0 != id by {
            assert(s.drop_first()[j] == s[j + 1]);
            assert(s[j + 1].0 != id);
        }
        lemma_lookup_skip(s.drop_first(), id, i - 1);
        assert(s[0].0 != id);
        assert(s.drop_first().subrange(i - 1, s.drop_first().len() as int) =~= s.subrange(
            i,
            s.len() as int,
        ));
    } else {
        assert(s.subrange(0, s.len() as int) =~= s);
    }
}

/// Removing an entry of another key leaves a lookup unchanged.
proof fn lemma_lookup_remove(s: Seq<(DocumentId, DocumentSession)>, i: int, id: DocumentId)
    requires
        0 <= i < s.len(),
        s[i].0 != id,
    ensures
        lookup(s.remove(i), id) == lookup(s, id),
    decreases s.len(),
{
    if i == 0 {
        assert(s.remove(0) =~= s.drop_first());
    } else {
        lemma_lookup_remove(s.drop_first(), i - 1, id);
        assert(s.remove(i).drop_first() =~= s.drop_first().remove(i - 1));
        assert(s.remove(i)[0] == s[0]);
        assert(s.remove(i).len() == s.len() - 1);
    }
}

/// What a lookup sees after an append.
proof fn lemma_lookup_push(
    s: Seq<(DocumentId, DocumentSession)>,
    x: (DocumentId, DocumentSession),
    id: DocumentId,
)
    ensures
        lookup(s, id) is Some ==> lookup(s.push(x), id) == lookup(s, id),
        lookup(s, id) is None && x.0 == id ==> lookup(s.push(x), id) == Some(x.1),
        lookup(s, id) is None && x.0 != id ==> lookup(s.push(x), id) is None,
    decreases s.len(),
{
    if s.len() == 0 {
        assert(s.push(x)[0] == x);
        assert(s.push(x).drop_first() =~= Seq::<(DocumentId, DocumentSession)>::empty());
        assert(lookup(s, id) is None);
        assert(lookup(Seq::<(DocumentId, DocumentSession)>::empty(), id) is None);
    } else {
        lemma_lookup_push(s.drop_first(), x, id);
        assert(s.push(x).drop_first() =~= s.drop_first().push(x));
        assert(s.push(x)[0] == s[0]);
    }
}

/// Owns the open documents' sessions, keyed by document identity.
pub struct SessionManager {
    sessions: Vec<(DocumentId, DocumentSession)>,
}

impl SessionManager {
    /// Keys are unique and every session is well formed.
    pub closed spec fn wf(self) -> bool {
        &&& (forall|i: int, j: int|
            #![trigger self.sessions@[i], self.sessions@[j]]
            0 <= i < j < self.sessions@.len() ==> self.sessions@[i].0 != self.sessions@[j].0)
        &&& forall|i: int|
            0 <= i < self.sessions@.len() ==> (#[trigger] self.sessions@[i]).1.wf()
    }

    /// The session of a document identity, if one is open.
    pub closed spec fn session(self, id: DocumentId) -> Option<DocumentSession> {
        lookup(self.sessions@, id)
    }

    /// Whether a session is open for this identity.
    pub open spec fn has_session(self, id: DocumentId) -> bool {
        self.session(id) is Some
    }

    /// An empty manager: no document open.
    pub fn new() -> (r: SessionManager)
        ensures
            r.wf(),
            forall|id: DocumentId| !(#[trigger] r.has_session(id)),
    {
        let r = SessionManager { sessions: Vec::new() };
        proof {
            assert forall|id: DocumentId| !(#[trigger] r.has_session(id)) by {
                assert(r.sessions@.len() == 0);
            }
        }
        r
    }

    /// Whether a session is open for this identity.
    pub fn is_open(&self, id: DocumentId) -> (r: bool)
        ensures
            r == self.has_session(id),
    {
        let ghost s0 = self.sessions@;
        let mut i: usize = 0;
        while i < self.sessions.len()
            invariant
                self.sessions@ == s0,
                i <= s0.len(),
                forall|j: int| 0 <= j < i ==> (#[trigger] s0[j]).0 != id,
            decreases s0.len() - i,
        {
            if self.sessions[i].0 == id {
                proof {
                    lemma_lookup_skip(s0, id, i as int);
                    assert(s0.subrange(i as int, s0.len() as int)[0] == s0[i as int]);
                }
                return true;
            }
            i = i + 1;
        }
        proof {
            lemma_lookup_skip(s0, id, s0.len() as int);
            assert(s0.subrange(s0.len() as int, s0.len() as int) =~= Seq::<(
                DocumentId,
                DocumentSession,
            )>::empty());
        }
        false
    }

    /// Removes and returns the session for `id`, if any; every other
    /// identity keeps its session.
    fn take_session(&mut self, id: DocumentId) -> (r: Option<DocumentSession>)
        requires
            old(self).wf(),
        ensures
            final(self).wf(),
            r == old(self).session(id),
            r is Some ==> r->Some_0.wf(),
            !final(self).has_session(id),
            forall|o: DocumentId|
                o != id ==> #[trigger] final(self).session(o) == old(self).session(o),
    {
        let ghost s0 = self.sessions@;
        proof {
            assert forall|a: int, b: int|
                #![trigger s0[a], s0[b]]
                0 <= a < b < s0.len() implies s0[a].0 != s0[b].0 by {
                assert(old(self).sessions@[a] == s0[a]);
                assert(old(self).sessions@[b] == s0[b]);
            }
            assert forall|a: int| 0 <= a < s0.len() implies (#[trigger] s0[a]).1.wf() by {
                assert(old(self).sessions@[a] == s0[a]);
            }
        }
        let mut i: usize = 0;
        while i < self.sessions.len()
            invariant
                self.sessions@ == s0,
                old(self).sessions@ == s0,
                old(self).wf(),
                i <= s0.len(),
                forall|j: int| 0 <= j < i ==> (#[trigger] s0[j]).0 != id,
                forall|a: int, b: int|
                    #![trigger s0[a], s0[b]]
                    0 <= a < b < s0.len() ==> s0[a].0 != s0[b].0,
                forall|a: int| 0 <= a < s0.len() ==> (#[trigger] s0[a]).1.wf(),
            decreases s0.len() - i,
        {
            if self.sessions[i].0 == id {
                proof {
                    lemma_lookup_skip(s0, id, i as int);
                    assert(s0.subrange(i as int, s0.len() as int)[0] == s0[i as int]);
                    assert(lookup(s0, id) == Some(s0[i as int].1));
                    assert(old(self).sessions@ == s0);
                    assert(old(self).session(id) == Some(s0[i as int].1));
                }
                let entry = self.sessions.remove(i);
                proof {
                    let s1 = self.sessions@;
                    assert(s1 =~= s0.remove(i as int));
                    assert forall|o: DocumentId| o != id implies #[trigger] lookup(s1, o)
                        == lookup(s0, o) by {
                        lemma_lookup_remove(s0, i as int, o);
                    }
                    // the removed key is gone: every other entry misses it
                    assert forall|j: int| 0 <= j < s1.len() implies (#[trigger] s1[j]).0 != id by {
                        if j < i {
                            assert(s1[j] == s0[j]);
                        } else {
                            assert(s1[j] == s0[j + 1]);
                            assert(s0[i as int].0 != s0[j + 1].0);
                        }
                    }
                    lemma_lookup_skip(s1, id, s1.len() as int);
                    assert(s1.subrange(s1.len() as int, s1.len() as int) =~= Seq::<(
                        DocumentId,
                        DocumentSession,
                    )>::empty());
                    // uniqueness and per-session well-formedness survive
                    assert forall|a: int, b: int|
                        #![trigger s1[a], s1[b]]
                        0 <= a < b < s1.len() implies s1[a].0 != s1[b].0 by {
                        let a0: int = if a < i { a } else { a + 1 };
                        let b0: int = if b < i { b } else { b + 1 };
                        assert(s1[a] == s0[a0]);
                        assert(s1[b] == s0[b0]);
                        assert(s0[a0].0 != s0[b0].0);
                    }
                    assert forall|j: int| 0 <= j < s1.len() implies (#[trigger] s1[j]).1.wf() by {
                        if j < i {
                            assert(s1[j] == s0[j]);
                            assert(s0[j].1.wf());
                        } else {
                            assert(s1[j] == s0[j + 1]);
                            assert(s0[j + 1].1.wf());
                        }
                    }
                    assert forall|o: DocumentId| o != id implies #[trigger] self.session(o) == old(
                        self,
                    ).session(o) by {
                        assert(lookup(s1, o) == lookup(s0, o));
                    }
                    assert(!self.has_session(id));
                    assert(s0[i as int].1.wf());
                }
                return Some(entry.1);
            }
            i = i + 1;
        }
        proof {
            lemma_lookup_skip(s0, id, s0.len() as int);
            assert(s0.subrange(s0.len() as int, s0.len() as int) =~= Seq::<(
                DocumentId,
                DocumentSession,
            )>::empty());
            assert(old(self).sessions@ == s0);
            assert(old(self).session(id) is None);
            assert forall|o: DocumentId| o != id implies #[trigger] self.session(o) == old(
                self,
            ).session(o) by {
                assert(self.sessions@ == s0);
            }
        }
        None
    }

    /// Adds a session under an identity that has none; every other identity
    /// keeps its session.
    fn put_session(&mut self, id: DocumentId, session: DocumentSession)
        requires
            old(self).wf(),
            !old(self).has_session(id),
            session.wf(),
        ensures
            final(self).wf(),
            final(self).session(id) == Some(session),
            forall|o: DocumentId|
                o != id ==> #[trigger] final(self).session(o) == old(self).session(o),
    {
        let ghost s0 = self.sessions@;
        proof {
            lemma_lookup_none(s0, id);
        }
        self.sessions.push((id, session));
        proof {
            assert(self.sessions@ == s0.push((id, session)));
            lemma_lookup_push(s0, (id, session), id);
            assert forall|o: DocumentId| o != id implies #[trigger] self.session(o) == old(
                self,
            ).session(o) by {
                lemma_lookup_push(s0, (id, session), o);
                assert(old(self).sessions@ == s0);
            }
            assert(self.session(id) == Some(session));
            assert forall|i: int, j: int|
                #![trigger self.sessions@[i], self.sessions@[j]]
                0 <= i < j < self.sessions@.len() implies self.sessions@[i].0
                != self.sessions@[j].0 by {
                if j == self.sessions@.len() - 1 {
                    assert(self.sessions@[i] == s0[i]);
                    assert(s0[i].0 != id);
                }
            }
        }
    }

    /// Document opened: a fresh session is created for the identity (an
    /// existing one is discarded first — a re-open starts over), the
    /// language identifier is resolved and, when recognized, a full parse
    /// is requested.
    pub fn open(&mut self, id: DocumentId, language_id: &str) -> (r: ParseAction)
        requires
            old(self).wf(),
        ensures
            final(self).wf(),
            final(self).has_session(id),
            forall|o: DocumentId|
                o != id ==> #[trigger] final(self).session(o) == old(self).session(o),
            r == (if resolve_spec(language_id@) is Some {
                ParseAction::RunParse(resolve_spec(language_id@)->Some_0)
            } else {
                ParseAction::NoParse
            }),
            final(self).session(id)->Some_0.engine.language == resolve_spec(language_id@),
            final(self).session(id)->Some_0.engine.tree is None,
            final(self).session(id)->Some_0.engine.pending@.len() == 0,
            !final(self).session(id)->Some_0.engine.reuse_ok,
    {
        let _ = self.take_session(id);
        let mut session = DocumentSession::new();
        let action = session.on_language(language_id);
        self.put_session(id, session);
        action
    }

    /// An edit for this identity: routed to its session; with no session
    /// open — closed already, or never opened — nothing happens at all and
    /// no parse is requested.
    pub fn edit(&mut self, id: DocumentId, delta: &TextDelta, before: &LineIndex, after: &LineIndex)
        -> (r: ParseAction)
        requires
            old(self).wf(),
            before.wf(),
            after.wf(),
        ensures
            final(self).wf(),
            !old(self).has_session(id) ==> r == ParseAction::NoParse && (forall|o: DocumentId|
                #[trigger] final(self).session(o) == old(self).session(o)),
            forall|o: DocumentId|
                o != id ==> #[trigger] final(self).session(o) == old(self).session(o),
            old(self).has_session(id) ==> final(self).has_session(id),
            old(self).has_session(id) ==> ({
                let s0 = old(self).session(id)->Some_0;
                let s1 = final(self).session(id)->Some_0;
                &&& s1.engine.language == s0.engine.language
                &&& (s0.engine.language is None ==> r == ParseAction::NoParse && s1 == s0)
                &&& (s0.engine.language is Some && !delta_ok(*delta, *before, *after) ==> r
                    == ParseAction::NoParse && s1.engine.tree == s0.engine.tree
                    && !s1.engine.reuse_ok && s1.engine.pending@.len() == 0)
                &&& (s0.engine.language is Some && delta_ok(*delta, *before, *after)
                    && s0.engine.tree is None ==> r == ParseAction::RunParse(
                    s0.engine.language->Some_0,
                ) && s1 == s0)
                &&& (s0.engine.language is Some && delta_ok(*delta, *before, *after)
                    && s0.engine.tree is Some && s0.engine.doc_len == before.text_len ==> r
                    == ParseAction::RunParse(s0.engine.language->Some_0) && s1.engine.tree is Some
                    && is_shifted(
                    s0.engine.tree->Some_0,
                    spec_translate(*delta, *before, *after),
                    s1.engine.tree->Some_0,
                ) && s1.engine.doc_len == after.text_len)
            }),
    {
        match self.take_session(id) {
            None => ParseAction::NoParse,
            Some(mut session) => {
                let action = session.on_edit(delta, before, after);
                self.put_session(id, session);
                action
            },
        }
    }

    /// A save for this identity: a full reparse of the saved text is
    /// requested, the held tree serving purely as reuse hint; a no-op with
    /// no session open.
    pub fn save(&mut self, id: DocumentId) -> (r: ParseAction)
        requires
            old(self).wf(),
        ensures
            final(self).wf(),
            !old(self).has_session(id) ==> r == ParseAction::NoParse && (forall|o: DocumentId|
                #[trigger] final(self).session(o) == old(self).session(o)),
            forall|o: DocumentId|
                o != id ==> #[trigger] final(self).session(o) == old(self).session(o),
            old(self).has_session(id) ==> final(self).session(id) == old(self).session(id),
            old(self).has_session(id) ==> r == (if old(self).session(
                id,
            )->Some_0.engine.language is Some {
                ParseAction::RunParse(old(self).session(id)->Some_0.engine.language->Some_0)
            } else {
                ParseAction::NoParse
            }),
    {
        match self.take_session(id) {
            None => ParseAction::NoParse,
            Some(mut session) => {
                let action = session.on_save();
                self.put_session(id, session);
                action
            },
        }
    }

    /// A language change for this identity: resolved and bound by its
    /// session; a no-op with no session open.
    pub fn language_changed(&mut self, id: DocumentId, language_id: &str) -> (r: ParseAction)
        requires
            old(self).wf(),
        ensures
            final(self).wf(),
            !old(self).has_session(id) ==> r == ParseAction::NoParse && (forall|o: DocumentId|
                #[trigger] final(self).session(o) == old(self).session(o)),
            forall|o: DocumentId|
                o != id ==> #[trigger] final(self).session(o) == old(self).session(o),
            old(self).has_session(id) ==> final(self).has_session(id),
            old(self).has_session(id) && resolve_spec(language_id@) is None ==> r
                == ParseAction::NoParse && final(self).session(id) == old(self).session(id),
            old(self).has_session(id) && resolve_spec(language_id@) is Some ==> ({
                let s0 = old(self).session(id)->Some_0;
                let s1 = final(self).session(id)->Some_0;
                &&& r == ParseAction::RunParse(resolve_spec(language_id@)->Some_0)
                &&& s1.engine.language == resolve_spec(language_id@)
                &&& !s1.engine.reuse_ok
                &&& s1.engine.tree == s0.engine.tree
            }),
    {
        match self.take_session(id) {
            None => ParseAction::NoParse,
            Some(mut session) => {
                let action = session.on_language(language_id);
                self.put_session(id, session);
                action
            },
        }
    }

    /// The grammar's answer for this identity: the fresh tree of the full
    /// current text, `text_len` bytes. The payload lists the kind tags of
    /// every changed node in preorder. With no session open — the document
    /// was closed while the parse ran, or never opened — the tree is
    /// discarded, the payload is empty, and no session is touched.
    pub fn finish_parse(&mut self, id: DocumentId, fresh: SyntaxNode, text_len: usize) -> (payload:
        Vec<String>)
        requires
            old(self).wf(),
            node_bounded(fresh, text_len as int),
        ensures
            final(self).wf(),
            !old(self).has_session(id) ==> payload@.len() == 0 && (forall|o: DocumentId|
                #[trigger] final(self).session(o) == old(self).session(o)),
            forall|o: DocumentId|
                o != id ==> #[trigger] final(self).session(o) == old(self).session(o),
            old(self).has_session(id) ==> final(self).has_session(id) && final(self).session(
                id,
            )->Some_0.engine.tree is Some && payload@ == changed_kinds_spec(
                final(self).session(id)->Some_0.engine.tree->Some_0.preorder(),
            ) && is_marked(
                fresh,
                old(self).session(id)->Some_0.engine.regions_for_reparse(),
                final(self).session(id)->Some_0.engine.tree->Some_0,
            ),
    {
        match self.take_session(id) {
            None => Vec::new(),
            Some(mut session) => {
                let payload = session.finish_parse(fresh, text_len);
                self.put_session(id, session);
                payload
            },
        }
    }

    /// Document closed: the session and its tree are dropped. Later events
    /// for the identity are silent no-ops.
    pub fn close(&mut self, id: DocumentId)
        requires
            old(self).wf(),
        ensures
            final(self).wf(),
            !final(self).has_session(id),
            forall|o: DocumentId|
                o != id ==> #[trigger] final(self).session(o) == old(self).session(o),
    {
        let _ = self.take_session(id);
    }
}

} // verus!
