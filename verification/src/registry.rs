//! The language registry: a pure lookup table from human-readable language
//! identifiers to opaque grammar handles.
//!
//! Matching is case-sensitive and exact; an unrecognized identifier — the
//! empty string included — resolves to nothing, which callers treat as "no
//! highlighting for this language", never as a fault. `resolve` is a total,
//! verified function: it cannot panic on any input.

use vstd::prelude::*;

verus! {

/// The grammar ABI stamp that handles of this registry carry; binding a
/// handle to a parser checks it.
pub const SUPPORTED_ABI: u16 = 14;

/// An opaque, process-wide, immutable handle to a compiled grammar. Many
/// sessions may share one handle. A handle whose ABI stamp differs from
/// `SUPPORTED_ABI` is structurally invalid and refuses to bind.
#[derive(Debug, Clone, Copy, PartialEq, Eq)]
pub struct LanguageHandle {
    pub id: u16,
    pub abi: u16,
}

impl LanguageHandle {
    /// A handle the parser accepts.
    pub open spec fn valid(self) -> bool {
        self.abi == SUPPORTED_ABI
    }
}

/// The registry table as a mathematical function: the handle for each known
/// identifier, nothing for every other string.
pub open spec fn resolve_spec(name: Seq<char>) -> Option<LanguageHandle> {
    if name == "C"@ {
        Some(LanguageHandle { id: 1, abi: SUPPORTED_ABI })
    } else if name == "C#"@ {
        Some(LanguageHandle { id: 2, abi: SUPPORTED_ABI })
    } else if name == "CSS"@ {
        Some(LanguageHandle { id: 3, abi: SUPPORTED_ABI })
    } else if name == "Fluent"@ {
        Some(LanguageHandle { id: 4, abi: SUPPORTED_ABI })
    } else if name == "Go"@ {
        Some(LanguageHandle { id: 5, abi: SUPPORTED_ABI })
    } else if name == "Java"@ {
        Some(LanguageHandle { id: 6, abi: SUPPORTED_ABI })
    } else if name == "JavaScript"@ {
        Some(LanguageHandle { id: 7, abi: SUPPORTED_ABI })
    } else if name == "JSdoc"@ {
        Some(LanguageHandle { id: 8, abi: SUPPORTED_ABI })
    } else if name == "JSON"@ {
        Some(LanguageHandle { id: 9, abi: SUPPORTED_ABI })
    } else if name == "Julia"@ {
        Some(LanguageHandle { id: 10, abi: SUPPORTED_ABI })
    } else if name == "Regular Expression"@ {
        Some(LanguageHandle { id: 11, abi: SUPPORTED_ABI })
    } else if name == "Rust"@ {
        Some(LanguageHandle { id: 12, abi: SUPPORTED_ABI })
    } else if name == "Scala"@ {
        Some(LanguageHandle { id: 13, abi: SUPPORTED_ABI })
    } else if name == "TypeScript"@ {
        Some(LanguageHandle { id: 14, abi: SUPPORTED_ABI })
    } else {
        None
    }
}

/// Exact string equality, at the level of the character sequences.
fn str_eq(a: &str, b: &str) -> (r: bool)
    ensures
        r == (a@ == b@),
{
    let x = a.to_owned();
    let y = b.to_owned();
    x == y
}

/// The registry's rows: the known identifiers with their handle numbers.
/// Adding or removing a supported grammar is an edit of this table alone.
fn table() -> (r: Vec<(&'static str, u16)>)
    ensures
        r@.len() == 14,
        r@[0].0@ == "C"@ && r@[0].1 == 1,
        r@[1].0@ == "C#"@ && r@[1].1 == 2,
        r@[2].0@ == "CSS"@ && r@[2].1 == 3,
        r@[3].0@ == "Fluent"@ && r@[3].1 == 4,
        r@[4].0@ == "Go"@ && r@[4].1 == 5,
        r@[5].0@ == "Java"@ && r@[5].1 == 6,
        r@[6].0@ == "JavaScript"@ && r@[6].1 == 7,
        r@[7].0@ == "JSdoc"@ && r@[7].1 == 8,
        r@[8].0@ == "JSON"@ && r@[8].1 == 9,
        r@[9].0@ == "Julia"@ && r@[9].1 == 10,
        r@[10].0@ == "Regular Expression"@ && r@[10].1 == 11,
        r@[11].0@ == "Rust"@ && r@[11].1 == 12,
        r@[12].0@ == "Scala"@ && r@[12].1 == 13,
        r@[13].0@ == "TypeScript"@ && r@[13].1 == 14,
{
    let mut rows: Vec<(&'static str, u16)> = Vec::new();
    rows.push(("C", 1));
    rows.push(("C#", 2));
    rows.push(("CSS", 3));
    rows.push(("Fluent", 4));
    rows.push(("Go", 5));
    rows.push(("Java", 6));
    rows.push(("JavaScript", 7));
    rows.push(("JSdoc", 8));
    rows.push(("JSON", 9));
    rows.push(("Julia", 10));
    rows.push(("Regular Expression", 11));
    rows.push(("Rust", 12));
    rows.push(("Scala", 13));
    rows.push(("TypeScript", 14));
    rows
}

/// Looks an identifier up in the registry. Total over every input string:
/// a known name yields its handle (always a valid one), any other name —
/// the empty string included — yields nothing.
pub fn resolve(name: &str) -> (r: Option<LanguageHandle>)
    ensures
        r == resolve_spec(name@),
        r is Some ==> r->Some_0.valid(),
{
    let rows = table();
    let mut i: usize = 0;
    while i < rows.len()
        invariant
            i <= rows@.len(),
            forall|j: int| 0 <= j < i ==> name@ != (#[trigger] rows@[j]).0@,
            rows@.len() == 14,
            rows@[0].0@ == "C"@ && rows@[0].1 == 1,
            rows@[1].0@ == "C#"@ && rows@[1].1 == 2,
            rows@[2].0@ == "CSS"@ && rows@[2].1 == 3,
            rows@[3].0@ == "Fluent"@ && rows@[3].1 == 4,
            rows@[4].0@ == "Go"@ && rows@[4].1 == 5,
            rows@[5].0@ == "Java"@ && rows@[5].1 == 6,
            rows@[6].0@ == "JavaScript"@ && rows@[6].1 == 7,
            rows@[7].0@ == "JSdoc"@ && rows@[7].1 == 8,
            rows@[8].0@ == "JSON"@ && rows@[8].1 == 9,
            rows@[9].0@ == "Julia"@ && rows@[9].1 == 10,
            rows@[10].0@ == "Regular Expression"@ && rows@[10].1 == 11,
            rows@[11].0@ == "Rust"@ && rows@[11].1 == 12,
            rows@[12].0@ == "Scala"@ && rows@[12].1 == 13,
            rows@[13].0@ == "TypeScript"@ && rows@[13].1 == 14,
        decreases rows@.len() - i,
    {
        let row = rows[i];
        if str_eq(name, row.0) {
            return Some(LanguageHandle { id: row.1, abi: SUPPORTED_ABI });
        }
        i = i + 1;
    }
    None
}

} // verus!
