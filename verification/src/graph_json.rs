//! The text of the dependency graph: a JSON object with one member for
//! each node, whose value is the array of the names the node depends on.

use vstd::prelude::*;
use vstd::string::StringExecFns;
use crate::emit::CodegenError;
use crate::symbols::{Dependencies, DependenciesView, seq_view};

verus! {

/// The error type of `serde_json`, carried through as it is.
#[verifier::external_type_specification]
#[verifier::external_body]
pub struct ExJsonError(serde_json::Error);

/// The sixteen digits of lower-case hexadecimal.
pub open spec fn hex_digits() -> Seq<char> {
    seq!['0', '1', '2', '3', '4', '5', '6', '7', '8', '9', 'a', 'b', 'c', 'd', 'e', 'f']
}

/// How a character stands inside a JSON string: a quote and a backslash
/// behind a backslash; backspace, tab, line feed, form feed and carriage
/// return as a backslash and their letter; any other character below the
/// blank as `\u00` and its two hexadecimal digits; every other character
/// as it is.
pub open spec fn escaped(c: char) -> Seq<char> {
    if c == '"' {
        seq!['\\', '"']
    } else if c == '\\' {
        seq!['\\', '\\']
    } else if c == '\u{8}' {
        seq!['\\', 'b']
    } else if c == '\t' {
        seq!['\\', 't']
    } else if c == '\n' {
        seq!['\\', 'n']
    } else if c == '\u{c}' {
        seq!['\\', 'f']
    } else if c == '\r' {
        seq!['\\', 'r']
    } else if (c as u32) < 0x20 {
        seq!['\\', 'u', '0', '0', hex_digits()[(c as u32) as int / 16], hex_digits()[(c as u32) as int % 16]]
    } else {
        seq![c]
    }
}

/// The characters of `s`, each as it stands inside a JSON string.
pub open spec fn escaped_all(s: Seq<char>) -> Seq<char>
    decreases s.len(),
{
    if s.len() == 0 {
        Seq::empty()
    } else {
        escaped_all(s.drop_last()) + escaped(s.last())
    }
}

/// The JSON text of a string: its characters, escaped, between quotes.
pub open spec fn json_string(s: Seq<char>) -> Seq<char> {
    seq!['"'] + escaped_all(s) + seq!['"']
}

/// Calls `serde_json::to_string` on a string. The contract claims that the
/// call succeeds for every string, and that its result is the JSON text of
/// the string. Both are read from the crate: serializing a `str` writes a
/// quote, the characters with the escapes of its table, and a quote into a
/// vector of bytes, and writing into a vector does not fail.
#[verifier::external_body]
fn quote(s: &String) -> (r: Result<String, serde_json::Error>)
    ensures
        r is Ok,
        r->Ok_0@ == json_string(s@),
{
    serde_json::to_string(s)
}

/// The first `n` items with a comma between every two.
pub open spec fn joined(items: Seq<Seq<char>>, n: int) -> Seq<char>
    decreases n,
{
    if n <= 0 || n > items.len() {
        Seq::empty()
    } else if n == 1 {
        items[0]
    } else {
        joined(items, n - 1) + seq![','] + items[n - 1]
    }
}

/// The items with a comma between every two, between an opening and a
/// closing character.
pub open spec fn enclosed(open: char, items: Seq<Seq<char>>, close: char) -> Seq<char> {
    seq![open] + joined(items, items.len() as int) + seq![close]
}

/// The JSON texts of a list of strings.
pub open spec fn json_strings(names: Seq<Seq<char>>) -> Seq<Seq<char>> {
    Seq::new(names.len(), |i: int| json_string(names[i]))
}

/// The member of the graph object for one node: the JSON text of its name,
/// a colon, and the array of the JSON texts of the names it depends on.
pub open spec fn member_text(d: DependenciesView) -> Seq<char> {
    json_string(d.node) + seq![':'] + enclosed('[', json_strings(d.needs), ']')
}

/// The JSON text of a dependency graph: an object with one member for
/// each node, in the order of the graph.
pub open spec fn graph_text(graph: Seq<DependenciesView>) -> Seq<char> {
    enclosed('{', Seq::new(graph.len(), |i: int| member_text(graph[i])), '}')
}

/// Puts the items one after the other with a comma between every two,
/// between an opening and a closing character.
pub fn join_items(open: char, items: &Vec<String>, close: char) -> (r: String)
    ensures
        r@ == enclosed(open, seq_view(items@), close),
{
    let ghost iv = seq_view(items@);
    let mut out = String::new();
    out.push(open);
    let mut i: usize = 0;
    while i < items.len()
        invariant
            i <= items.len(),
            iv == seq_view(items@),
            out@ == seq![open] + joined(iv, i as int),
        decreases items.len() - i,
    {
        if i > 0 {
            out.push(',');
        }
        out.append(items[i].as_str());
        i += 1;
        assert(out@ =~= seq![open] + joined(iv, i as int));
    }
    out.push(close);
    assert(out@ =~= enclosed(open, iv, close));
    out
}

/// The JSON texts of a list of strings.
fn quote_all(names: &Vec<String>) -> (r: Result<Vec<String>, CodegenError>)
    ensures
        r matches Ok(v) && seq_view(v@) == json_strings(seq_view(names@)),
{
    let mut out: Vec<String> = Vec::new();
    let mut i: usize = 0;
    while i < names.len()
        invariant
            i <= names.len(),
            out@.len() == i,
            forall|k: int| 0 <= k < i ==> (#[trigger] out@[k])@ == json_string(names@[k]@),
        decreases names.len() - i,
    {
        match quote(&names[i]) {
            Ok(q) => {
                out.push(q);
            },
            Err(_) => {
                return Err(CodegenError::Encoding);
            },
        }
        i += 1;
    }
    assert(seq_view(out@) =~= json_strings(seq_view(names@)));
    Ok(out)
}

/// The member of the graph object for one node, from the JSON text of its
/// name and the JSON texts of the names it depends on.
pub fn member(name: String, needs: &Vec<String>) -> (r: String)
    ensures
        r@ == name@ + seq![':'] + enclosed('[', seq_view(needs@), ']'),
{
    let mut out = name;
    out.push(':');
    let list = join_items('[', needs, ']');
    out.append(list.as_str());
    out
}

/// The JSON text of a dependency graph, which every graph has. The names
/// are encoded by `serde_json`, whose error type is why this returns a
/// `Result`.
pub fn encode_graph(graph: &Vec<Dependencies>) -> (r: Result<String, CodegenError>)
    ensures
        r matches Ok(s) && s@ == graph_text(seq_view(graph@)),
{
    let ghost gv = seq_view(graph@);
    let mut members: Vec<String> = Vec::new();
    let mut i: usize = 0;
    while i < graph.len()
        invariant
            i <= graph.len(),
            gv == seq_view(graph@),
            members@.len() == i,
            forall|k: int| 0 <= k < i ==> (#[trigger] members@[k])@ == member_text(gv[k]),
        decreases graph.len() - i,
    {
        let name = match quote(&graph[i].node) {
            Ok(q) => q,
            Err(_) => {
                return Err(CodegenError::Encoding);
            },
        };
        let needs = quote_all(&graph[i].needs)?;
        assert(gv[i as int] == graph@[i as int]@);
        members.push(member(name, &needs));
        i += 1;
    }
    assert(seq_view(members@) =~= Seq::new(gv.len(), |i: int| member_text(gv[i])));
    Ok(join_items('{', &members, '}'))
}

} // verus!
