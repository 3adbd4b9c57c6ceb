//! The document session: the per-document state machine.
//!
//! A session owns one parse engine and reacts to lifecycle events. Running
//! the grammar itself is the host's side of the contract: each event handler
//! decides and returns a `ParseAction`; where it asks for a parse, the host
//! parses the full current text (the engine's tree, if any, is the reuse
//! hint) and hands the resulting tree to `finish_parse`, which derives the
//! changed flags and the highlight payload.

use vstd::prelude::*;

use crate::edit::LineIndex;
use crate::edit::TextDelta;
use crate::edit::spec_translate;
use crate::edit::delta_ok;
use crate::edit::translate_delta;
use crate::engine::ParseEngine;
use crate::engine::is_marked;
use crate::engine::is_shifted;
use crate::engine::node_bounded;
use crate::engine::region_shift;
use crate::engine::ByteRegion;
use crate::registry::LanguageHandle;
use crate::registry::resolve;
use crate::registry::resolve_spec;
use crate::tree::SyntaxNode;
use crate::walker::changed_kinds;
use crate::walker::changed_kinds_spec;

verus! {

/// What the host must do next for this document.
#[derive(Debug, Clone, Copy, PartialEq, Eq)]
pub enum ParseAction {
    /// Run the grammar bound to this handle over the full current text and
    /// hand the resulting tree to `finish_parse`.
    RunParse(LanguageHandle),
    /// Nothing to parse: no recognized language, or the event changed
    /// nothing.
    NoParse,
}

/// Per-document state: a parse engine plus the currently bound language
/// (held by the engine).
pub struct DocumentSession {
    pub engine: ParseEngine,
}

impl DocumentSession {
    pub open spec fn wf(self) -> bool {
        self.engine.wf()
    }

    /// A fresh session: empty, nothing parsed yet.
    pub fn new() -> (r: DocumentSession)
        ensures
            r.wf(),
            r.engine.language is None,
            r.engine.tree is None,
            r.engine.pending@.len() == 0,
            !r.engine.reuse_ok,
    {
        DocumentSession { engine: ParseEngine::new() }
    }

    /// Document opened (or its language changed): resolve the identifier.
    /// A recognized language is bound and a full parse requested; an
    /// unrecognized one leaves the session untouched and highlighting is
    /// skipped until a recognized language is set.
    pub fn on_language(&mut self, language_id: &str) -> (r: ParseAction)
        requires
            old(self).wf(),
        ensures
            final(self).wf(),
            resolve_spec(language_id@) is None ==> r == ParseAction::NoParse && *final(self)
                == *old(self),
            resolve_spec(language_id@) is Some ==> {
                &&& r == ParseAction::RunParse(resolve_spec(language_id@)->Some_0)
                &&& final(self).engine.language == resolve_spec(language_id@)
                &&& !final(self).engine.reuse_ok
                &&& final(self).engine.tree == old(self).engine.tree
                &&& final(self).engine.doc_len == old(self).engine.doc_len
                &&& final(self).engine.pending@ == old(self).engine.pending@
            },
    {
        match resolve(language_id) {
            None => ParseAction::NoParse,
            Some(handle) => {
                match self.engine.set_language(handle) {
                    Ok(()) => ParseAction::RunParse(handle),
                    Err(_) => {
                        // Unreachable for registry handles (they are always
                        // valid), kept as the fallback the design asks for:
                        // a binding failure leaves the session un-parsed.
                        self.engine = ParseEngine::new();
                        ParseAction::NoParse
                    },
                }
            },
        }
    }

    /// An edit arrived: validate and translate the delta against the line
    /// metadata of the document before and after the edit, record it on the
    /// held tree, and request a reparse. A malformed delta (one inconsistent
    /// with the snapshots or with the engine's known document length) is
    /// rejected: the held tree is not touched, reuse bookkeeping is
    /// discarded so the next parse runs full, and no parse is requested.
    pub fn on_edit(&mut self, delta: &TextDelta, before: &LineIndex, after: &LineIndex) -> (r:
        ParseAction)
        requires
            old(self).wf(),
            before.wf(),
            after.wf(),
        ensures
            final(self).wf(),
            final(self).engine.language == old(self).engine.language,
            old(self).engine.language is None ==> r == ParseAction::NoParse && *final(self) == *old(
                self,
            ),
            old(self).engine.language is Some && !delta_ok(*delta, *before, *after) ==> {
                &&& r == ParseAction::NoParse
                &&& final(self).engine.tree == old(self).engine.tree
                &&& !final(self).engine.reuse_ok
                &&& final(self).engine.pending@.len() == 0
            },
            old(self).engine.language is Some && delta_ok(*delta, *before, *after) ==> {
                &&& old(self).engine.tree is None ==> r == ParseAction::RunParse(
                    old(self).engine.language->Some_0,
                ) && *final(self) == *old(self)
                &&& old(self).engine.tree is Some && old(self).engine.doc_len != before.text_len
                    ==> {
                    &&& r == ParseAction::NoParse
                    &&& final(self).engine.tree == old(self).engine.tree
                    &&& !final(self).engine.reuse_ok
                    &&& final(self).engine.pending@.len() == 0
                }
                &&& old(self).engine.tree is Some && old(self).engine.doc_len == before.text_len
                    ==> {
                    &&& r == ParseAction::RunParse(old(self).engine.language->Some_0)
                    &&& final(self).engine.tree is Some
                    &&& is_shifted(
                        old(self).engine.tree->Some_0,
                        spec_translate(*delta, *before, *after),
                        final(self).engine.tree->Some_0,
                    )
                    &&& final(self).engine.doc_len == after.text_len
                    &&& final(self).engine.reuse_ok == old(self).engine.reuse_ok
                    &&& final(self).engine.pending@ == old(self).engine.pending@.map_values(
                        |reg: ByteRegion| region_shift(reg, spec_translate(*delta, *before, *after)),
                    ).push(
                        (ByteRegion {
                            start: (spec_translate(*delta, *before, *after)).start_byte,
                            end: (spec_translate(*delta, *before, *after)).new_end_byte,
                        }),
                    )
                }
            },
    {
        let lang = match self.engine.language {
            Some(h) => h,
            None => { return ParseAction::NoParse; },
        };
        match translate_delta(delta, before, after) {
            Err(_) => {
                self.engine.force_full();
                ParseAction::NoParse
            },
            Ok(e) => {
                if self.engine.tree.is_some() {
                    if self.engine.doc_len == before.text_len {
                        self.engine.apply_edit(&e);
                    } else {
                        self.engine.force_full();
                        return ParseAction::NoParse;
                    }
                }
                ParseAction::RunParse(lang)
            },
        }
    }

    /// Document saved: request a fresh full-document parse, no edit
    /// translation; the held tree serves purely as the reuse hint. The
    /// session itself does not change until the parse result arrives.
    pub fn on_save(&mut self) -> (r: ParseAction)
        requires
            old(self).wf(),
        ensures
            final(self).wf(),
            *final(self) == *old(self),
            old(self).engine.language is None ==> r == ParseAction::NoParse,
            old(self).engine.language is Some ==> r == ParseAction::RunParse(
                old(self).engine.language->Some_0,
            ),
    {
        match self.engine.language {
            Some(h) => ParseAction::RunParse(h),
            None => ParseAction::NoParse,
        }
    }

    /// The grammar's answer to a requested parse: the fresh tree for the
    /// full current text of `text_len` bytes. The engine derives the changed
    /// flags (none where nothing was pending — in particular on a first
    /// parse, whose node set is the baseline and reports no changes), and
    /// the returned payload lists the kind tags of every changed node in
    /// depth-first preorder.
    pub fn finish_parse(&mut self, fresh: SyntaxNode, text_len: usize) -> (payload: Vec<String>)
        requires
            old(self).wf(),
            node_bounded(fresh, text_len as int),
        ensures
            final(self).wf(),
            final(self).engine.tree is Some,
            is_marked(
                fresh,
                old(self).engine.regions_for_reparse(),
                final(self).engine.tree->Some_0,
            ),
            payload@ == changed_kinds_spec(final(self).engine.tree->Some_0.preorder()),
            final(self).engine.pending@.len() == 0,
            final(self).engine.reuse_ok,
            final(self).engine.doc_len == text_len,
            final(self).engine.language == old(self).engine.language,
    {
        self.engine.reparse(fresh, text_len);
        match self.engine.current_tree() {
            Some(t) => changed_kinds(t),
            None => Vec::new(),
        }
    }

    /// Document closed: drop the engine and its tree.
    pub fn on_close(&mut self)
        ensures
            final(self).wf(),
            final(self).engine.language is None,
            final(self).engine.tree is None,
    {
        self.engine = ParseEngine::new();
    }
}

} // verus!
