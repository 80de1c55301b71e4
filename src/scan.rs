//! The flat scanner: a single left-to-right pass over the characters of a
//! text, toggled by quotes, that collects key and value spans into a mapping.
//!
//! It knows nothing of JSON's structure: braces, nesting, escapes and
//! literals other than quoted strings are not recognised.
use vstd::prelude::*;
use vstd::string::{StrSliceExecFns, axiom_spec_iter, next_postcondition};
use vstd::std_specs::iter::IteratorSpec;
use crate::mapping::Mapping;
use crate::text::push_char;

verus! {

/// Where the scan stands after some prefix of the text.
pub struct ScanState {
    /// Inside a quoted key span.
    pub in_key: bool,
    /// Inside a value span, opened by a colon.
    pub in_value: bool,
    /// The key buffer.
    pub key: Seq<char>,
    /// The value buffer.
    pub value: Seq<char>,
    /// The pairs committed so far.
    pub entries: Map<Seq<char>, Seq<char>>,
}

/// The state before the first character.
pub open spec fn scan_start() -> ScanState {
    ScanState {
        in_key: false,
        in_value: false,
        key: Seq::empty(),
        value: Seq::empty(),
        entries: Map::empty(),
    }
}

/// One character's transition; the rules are tried in the order written.
pub open spec fn scan_step(s: ScanState, c: char) -> ScanState {
    if c == '"' && s.in_key {
        ScanState { in_key: false, ..s }
    } else if c == '"' && s.in_value {
        ScanState { in_value: false, ..s }
    } else if c == '"' {
        ScanState { in_key: true, ..s }
    } else if c == ':' {
        ScanState { in_value: true, ..s }
    } else if c == ',' && s.in_value {
        ScanState {
            in_key: s.in_key,
            in_value: false,
            key: Seq::empty(),
            value: Seq::empty(),
            entries: s.entries.insert(s.key, s.value),
        }
    } else if s.in_key {
        ScanState { key: s.key.push(c), ..s }
    } else if s.in_value {
        ScanState { value: s.value.push(c), ..s }
    } else {
        s
    }
}

/// The state after scanning all of `t`.
pub open spec fn scan_all(t: Seq<char>) -> ScanState
    decreases t.len(),
{
    if t.len() == 0 {
        scan_start()
    } else {
        scan_step(scan_all(t.drop_last()), t.last())
    }
}

/// The mapping that `t` yields: what the scan committed, and the trailing
/// key and value when both buffers are non-empty at the end.
pub open spec fn flat_mapping(t: Seq<char>) -> Map<Seq<char>, Seq<char>> {
    let s = scan_all(t);
    if s.key.len() > 0 && s.value.len() > 0 {
        s.entries.insert(s.key, s.value)
    } else {
        s.entries
    }
}

/// No character of `t` is a quote, and no colon comes before a comma.
pub open spec fn quote_free_without_colon_comma(t: Seq<char>) -> bool {
    &&& forall|i: int| 0 <= i < t.len() ==> t[i] != '"'
    &&& forall|i: int, j: int| 0 <= i < j < t.len() ==> !(t[i] == ':' && t[j] == ',')
}

proof fn lemma_quote_free_scan(t: Seq<char>)
    requires
        quote_free_without_colon_comma(t),
    ensures
        !scan_all(t).in_key,
        scan_all(t).key.len() == 0,
        scan_all(t).entries == Map::<Seq<char>, Seq<char>>::empty(),
        scan_all(t).in_value ==> exists|i: int| 0 <= i < t.len() && t[i] == ':',
    decreases t.len(),
{
    if t.len() > 0 {
        let p = t.drop_last();
        assert(quote_free_without_colon_comma(p)) by {
            assert forall|i: int, j: int| 0 <= i < j < p.len() implies !(p[i] == ':' && p[j]
                == ',') by {
                assert(p[i] == t[i] && p[j] == t[j]);
            }
        }
        lemma_quote_free_scan(p);
        let c = t.last();
        assert(c != '"');
        if scan_all(p).in_value {
            let i = choose|i: int| 0 <= i < p.len() && p[i] == ':';
            assert(t[i] == ':');
            assert(c != ',');
        }
    }
}

/// A text with no quote characters, in which no colon is followed later by a
/// comma, yields the empty mapping, so parsing it fails.
pub proof fn lemma_quote_free_text_yields_nothing(t: Seq<char>)
    requires
        quote_free_without_colon_comma(t),
    ensures
        flat_mapping(t) == Map::<Seq<char>, Seq<char>>::empty(),
{
    lemma_quote_free_scan(t);
}

/// Why a text yields no mapping.
#[derive(Debug, Clone, Copy, PartialEq, Eq, Structural)]
pub enum ParseError {
    /// The scan committed no pair.
    NoEntries,
}

impl ParseError {
    /// The message that describes the error.
    pub fn message(&self) -> (r: &'static str)
        ensures
            r@ == "Failed to parse JSON"@,
    {
        "Failed to parse JSON"
    }
}

/// Scans `json` and returns the mapping it yields, or `NoEntries` when that
/// mapping is empty.
pub fn parse_json(json: &str) -> (r: Result<Mapping, ParseError>)
    ensures
        match r {
            Ok(m) => m.wf() && m@ == flat_mapping(json@) && m@ != Map::<Seq<char>, Seq<char>>::empty(),
            Err(e) => e == ParseError::NoEntries && flat_mapping(json@) == Map::<Seq<char>, Seq<char>>::empty(),
        },
{
    broadcast use next_postcondition;

    let mut data = Mapping::new();
    let mut in_key = false;
    let mut in_value = false;
    let mut key = String::new();
    let mut value = String::new();
    let ghost mut seen: Seq<char> = Seq::empty();
    let mut chars = json.chars();
    proof {
        axiom_spec_iter(json);
    }
    loop
        invariant
            data.wf(),
            json@ == seen + chars.remaining(),
            chars.decrease() is Some,
            ({
                let s = scan_all(seen);
                &&& in_key == s.in_key
                &&& in_value == s.in_value
                &&& key@ == s.key
                &&& value@ == s.value
                &&& data@ == s.entries
            }),
        ensures
            data.wf(),
            ({
                let s = scan_all(json@);
                &&& key@ == s.key
                &&& value@ == s.value
                &&& data@ == s.entries
            }),
        decreases chars.decrease()->0,
    {
        let next = chars.next();
        let c = match next {
            Some(c) => c,
            None => {
                assert(seen =~= json@);
                break;
            },
        };
        proof {
            assert(seen.push(c).drop_last() =~= seen);
            assert(json@ =~= seen.push(c) + chars.remaining());
            seen = seen.push(c);
        }
        if c == '"' && in_key {
            in_key = false;
        } else if c == '"' && in_value {
            in_value = false;
        } else if c == '"' {
            in_key = true;
        } else if c == ':' {
            in_value = true;
        } else if c == ',' && in_value {
            in_value = false;
            data.insert(key, value);
            key = String::new();
            value = String::new();
        } else if in_key {
            push_char(&mut key, c);
        } else if in_value {
            push_char(&mut value, c);
        }
    }
    if key.as_str().unicode_len() > 0 && value.as_str().unicode_len() > 0 {
        data.insert(key, value);
    }
    if data.is_empty() {
        Err(ParseError::NoEntries)
    } else {
        Ok(data)
    }
}

} // verus!
