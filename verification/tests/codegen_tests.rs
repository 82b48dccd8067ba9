use nodelang::bytecode::{be_bytes, bits, byte, CallSite, FloatSite, Image};
use nodelang::codegen::{assign_addresses, NodeImage};
use nodelang::emit::{CodegenError, Slot};
use nodelang::graph_json::{encode_graph, join_items, member};
use nodelang::lexer::Lexer;
use nodelang::parser::Parser;
use nodelang::source::{assemble, Compiled, Source};
use nodelang::symbols::{Dependencies, Variable};
use nodelang::token::FloatLiteral;
use nodelang::types::Type;

const STUBS: [u8; 12] = [0x90, 0x64, 0x91, 0x64, 0x92, 0x64, 0x93, 0x64, 0x15, 0x0A, 0x93, 0x64];

fn source_of(src: &str) -> Source {
    let mut p = Parser::new(Lexer::new(src.chars().collect()));
    assert_eq!(p.parse(), Ok(()));
    p.generate_ast();
    Source::new(p).unwrap()
}

fn compile(src: &str) -> Result<Compiled, CodegenError> {
    source_of(src).compile()
}

fn image_of(src: &str) -> NodeImage {
    let mut c = compile(src).unwrap();
    assert_eq!(c.images.len(), 1);
    c.images.remove(0)
}

fn main_of(body: &str) -> NodeImage {
    image_of(&format!("node A {{ fn main() -> () {{ {} }} }}", body))
}

fn push(n: i32) -> Vec<u8> {
    let mut v = vec![0x10];
    v.extend_from_slice(&n.to_be_bytes());
    v
}

fn op(code: u8, operand: u32) -> Vec<u8> {
    let mut v = vec![code];
    v.extend_from_slice(&operand.to_be_bytes());
    v
}

fn cat(parts: &[Vec<u8>]) -> Vec<u8> {
    parts.iter().flat_map(|p| p.iter().copied()).collect()
}

#[test]
fn compiles_an_arithmetic_return() {
    let c = compile("node A { fn main() -> int { return 1 + 2 * 3; } }").unwrap();
    assert_eq!(c.images.len(), 1);
    let image = &c.images[0];
    assert_eq!(image.name, "A");
    let expected = cat(&[push(1), push(2), push(3), vec![0x34], vec![0x30], vec![0x5B], STUBS.to_vec()]);
    assert_eq!(image.bytes, expected);
    assert_eq!(image.starts, vec![0]);
    assert_eq!(c.graph, "{\"A\":[]}");
    let parsed: serde_json::Value = serde_json::from_str(&c.graph).unwrap();
    let mut want = serde_json::Map::new();
    want.insert("A".to_string(), serde_json::Value::Array(vec![]));
    assert_eq!(parsed, serde_json::Value::Object(want));
}

#[test]
fn compiles_two_nodes() {
    let c = compile("node A: B { fn main() -> () {} }  node B { fn main() -> () {} }").unwrap();
    assert_eq!(c.images.len(), 2);
    assert_eq!(c.images[0].name, "A");
    assert_eq!(c.images[1].name, "B");
    let expected = cat(&[vec![0x64], STUBS.to_vec()]);
    assert_eq!(c.images[0].bytes, expected);
    assert_eq!(c.images[1].bytes, expected);
    assert_eq!(c.graph, "{\"A\":[\"B\"],\"B\":[]}");
    let parsed: serde_json::Value = serde_json::from_str(&c.graph).unwrap();
    let mut want = serde_json::Map::new();
    want.insert(
        "A".to_string(),
        serde_json::Value::Array(vec![serde_json::Value::String("B".to_string())]),
    );
    want.insert("B".to_string(), serde_json::Value::Array(vec![]));
    assert_eq!(parsed, serde_json::Value::Object(want));
}

#[test]
fn compiles_an_array_and_its_update() {
    let image = main_of("var a:[int;3] = [10,20,30]; a[1] = a[0] + a[2];");
    let base: u32 = 0;
    let alloc = cat(&[op(0x80, base), vec![4], 3i32.to_be_bytes().to_vec()]);
    let literal = cat(&[push(30), push(2), push(20), push(1), push(10), push(0)]);
    let stores = cat(&[op(0x87, base), op(0x87, base), op(0x87, base)]);
    // An index is multiplied by the four bytes of an element.
    let load = |i: i32| cat(&[push(i), push(4), vec![0x34], op(0x82, base)]);
    let update = cat(&[
        load(0),
        load(2),
        vec![0x30],
        push(1),
        push(4),
        vec![0x34],
        op(0x87, base),
    ]);
    let expected = cat(&[alloc, literal, stores, update, vec![0x64], STUBS.to_vec()]);
    assert_eq!(image.bytes, expected);
}

#[test]
fn variables_get_addresses_one_after_the_other() {
    let image = main_of("var a:int = 1; var b:bool = true; var c:char = 'x'; var d:float = 1.5; var e:int = a;");
    let expected = cat(&[
        op(0x20, 0),
        op(0x28, 4),
        op(0x2C, 5),
        op(0x21, 6),
        op(0x20, 10),
        push(1),
        op(0x24, 0),
        vec![0x14, 1],
        op(0x2A, 4),
        vec![0x15, b'x'],
        op(0x2E, 5),
        op(0x11, 0),
        op(0x25, 6),
        op(0x22, 0),
        op(0x24, 10),
        vec![0x64],
        STUBS.to_vec(),
    ]);
    assert_eq!(image.bytes, expected);
    assert_eq!(
        image.floats,
        vec![FloatSite {
            offset: 25 + 5 + 5 + 2 + 5 + 2 + 5 + 1,
            literal: FloatLiteral { negative: false, digits: "1.5".to_string() }
        }]
    );
}

#[test]
fn assign_addresses_lays_slots_apart() {
    let locals = vec![
        Variable { name: "a".to_string(), ty: Type::Int },
        Variable { name: "b".to_string(), ty: Type::Array(Box::new(Type::Char), 3) },
        Variable {
            name: "c".to_string(),
            ty: Type::Array(Box::new(Type::Array(Box::new(Type::Float), 2)), 5),
        },
        Variable { name: "d".to_string(), ty: Type::Bool },
    ];
    let (slots, next) = assign_addresses(&locals, 16).unwrap();
    let addrs: Vec<u32> = slots.iter().map(|s: &Slot| s.addr).collect();
    assert_eq!(addrs, vec![16, 20, 23, 63]);
    assert_eq!(next, 64);
    for i in 0..slots.len() {
        for j in 0..slots.len() {
            if i != j {
                assert_ne!(slots[i].addr, slots[j].addr);
            }
        }
    }
}

#[test]
fn assign_addresses_refuses_what_has_no_room() {
    let named = vec![Variable { name: "a".to_string(), ty: Type::Named("T".to_string()) }];
    assert_eq!(assign_addresses(&named, 0), Err(CodegenError::UnsizedType));
    let empty = vec![Variable { name: "a".to_string(), ty: Type::Array(Box::new(Type::Int), 0) }];
    assert_eq!(assign_addresses(&empty, 0), Err(CodegenError::UnsizedType));
    let one = vec![Variable { name: "a".to_string(), ty: Type::Int }];
    assert_eq!(assign_addresses(&one, 0x1_0000_0000 - 3), Err(CodegenError::OutOfAddresses));
    assert!(assign_addresses(&one, 0x1_0000_0000 - 4).is_ok());
    let huge = vec![Variable {
        name: "a".to_string(),
        ty: Type::Array(Box::new(Type::Array(Box::new(Type::Int), 0x10000)), 0x10000),
    }];
    assert_eq!(assign_addresses(&huge, 0), Err(CodegenError::OutOfAddresses));
}

#[test]
fn a_loop_jumps_back_and_out() {
    let image = main_of("var i:int = 0; while i < 3 { i = i + 1; }");
    let prologue = op(0x20, 0);
    let init = cat(&[push(0), op(0x24, 0)]);
    let start = (prologue.len() + init.len()) as u32;
    let cond = cat(&[op(0x22, 0), push(3), vec![0x54]]);
    let body = cat(&[op(0x22, 0), push(1), vec![0x30], op(0x24, 0)]);
    let end = start + (cond.len() + 5 + body.len() + 5) as u32;
    let expected = cat(&[
        prologue,
        init,
        cond,
        op(0x51, end),
        body,
        op(0x5A, start),
        vec![0x64],
        STUBS.to_vec(),
    ]);
    assert_eq!(image.bytes, expected);
}

#[test]
fn an_if_jumps_over_its_branches() {
    let image = main_of("var x:int = 0; if true { x = 1; } else { x = 2; }");
    let head = cat(&[op(0x20, 0), push(0), op(0x24, 0), vec![0x14, 1]]);
    let then = cat(&[push(1), op(0x24, 0)]);
    let other = cat(&[push(2), op(0x24, 0)]);
    let else_at = (head.len() + 5 + then.len() + 5) as u32;
    let end_at = else_at + other.len() as u32;
    let expected = cat(&[
        head,
        op(0x51, else_at),
        then,
        op(0x5A, end_at),
        other,
        vec![0x64],
        STUBS.to_vec(),
    ]);
    assert_eq!(image.bytes, expected);
}

#[test]
fn calls_are_patched_with_the_offsets_of_their_callees() {
    let image = image_of(
        "node A { fn f(a: int, b: char) -> int { return a; } fn main() -> () { var x:int = f(1, 'c'); print_int(x); println(); main(); } }",
    );
    // main comes first whatever the order of the declarations.
    assert_eq!(image.starts.len(), 2);
    assert_eq!(image.starts[1], 0);
    let f_at = image.starts[0] as u32;
    let stubs_at = (image.bytes.len() - 12) as u32;
    let prologue = op(0x20, 0);
    let call_f_at = prologue.len() as u32;
    let call_f = |ret: u32| cat(&[op(0x10, ret), vec![0x15, b'c'], push(1), op(0x5A, f_at)]);
    let len_f = call_f(0).len() as u32;
    let store = op(0x24, 0);
    let call_print_at = call_f_at + len_f + store.len() as u32;
    let call_print = |ret: u32| cat(&[op(0x10, ret), op(0x22, 0), op(0x5A, stubs_at)]);
    let len_print = call_print(0).len() as u32;
    let call_ln_at = call_print_at + len_print;
    let call_ln = |ret: u32| cat(&[op(0x10, ret), op(0x5A, stubs_at + 8)]);
    let len_ln = call_ln(0).len() as u32;
    let call_main_at = call_ln_at + len_ln;
    let call_main = |ret: u32| cat(&[op(0x10, ret), op(0x5A, 0)]);
    let len_main = call_main(0).len() as u32;
    let main = cat(&[
        prologue,
        call_f(call_f_at + len_f),
        store,
        call_print(call_print_at + len_print),
        call_ln(call_ln_at + len_ln),
        call_main(call_main_at + len_main),
        vec![0x64],
    ]);
    assert_eq!(f_at as usize, main.len());
    // f: its two parameters live after the variable of main.
    let f = cat(&[op(0x20, 4), op(0x2C, 8), op(0x24, 4), op(0x2E, 8), op(0x22, 4), vec![0x5B]]);
    let expected = cat(&[main, f, STUBS.to_vec()]);
    assert_eq!(image.bytes, expected);
    let names: Vec<&str> = image.calls.iter().map(|c: &CallSite| c.name.as_str()).collect();
    assert_eq!(names, vec!["f", "print_int", "println", "main"]);
    for c in &image.calls {
        let target = u32::from_be_bytes([
            image.bytes[c.offset],
            image.bytes[c.offset + 1],
            image.bytes[c.offset + 2],
            image.bytes[c.offset + 3],
        ]) as usize;
        assert!(target < image.bytes.len());
        assert_eq!(image.bytes[c.offset - 1], 0x5A);
        // The sequence begins with the push of the offset behind its jump.
        assert_eq!(image.bytes[c.origin], 0x10);
        assert_eq!(
            image.bytes[c.origin + 1..c.origin + 5],
            ((c.offset + 4) as u32).to_be_bytes()
        );
    }
    let origins: Vec<usize> = image.calls.iter().map(|c: &CallSite| c.origin).collect();
    assert_eq!(
        origins,
        vec![
            call_f_at as usize,
            call_print_at as usize,
            call_ln_at as usize,
            call_main_at as usize
        ]
    );
}

#[test]
fn nested_calls_return_behind_their_own_jumps() {
    let image = image_of(
        "node A { fn f(a: int) -> int { return a; } fn main() -> () { var x:int = f(f(f(1))); if f(x) < 2 { print_int(f(3)); } } }",
    );
    assert_eq!(image.calls.len(), 6);
    for c in &image.calls {
        assert_eq!(image.bytes[c.origin], 0x10);
        assert_eq!(
            image.bytes[c.origin + 1..c.origin + 5],
            ((c.offset + 4) as u32).to_be_bytes()
        );
        assert_eq!(image.bytes[c.offset - 1], 0x5A);
        let target = u32::from_be_bytes([
            image.bytes[c.offset],
            image.bytes[c.offset + 1],
            image.bytes[c.offset + 2],
            image.bytes[c.offset + 3],
        ]) as usize;
        let want = if c.name == "f" { image.starts[0] } else { image.bytes.len() - 12 };
        assert_eq!(target, want);
    }
    // The innermost call is noted first, and begins last.
    assert!(image.calls[0].origin > image.calls[1].origin);
    assert!(image.calls[1].origin > image.calls[2].origin);
    assert!(image.calls[0].offset < image.calls[1].offset);
}

#[test]
fn array_parameters_are_bound_with_their_shape() {
    let image = image_of("node A { fn main(a: [char; 2]) -> () { } }");
    let shape = cat(&[vec![1], 2i32.to_be_bytes().to_vec()]);
    let expected = cat(&[
        op(0x80, 0),
        shape.clone(),
        op(0x81, 0),
        shape,
        vec![0x64],
        STUBS.to_vec(),
    ]);
    assert_eq!(image.bytes, expected);
}

#[test]
fn nested_arrays_stride_by_the_bytes_of_their_rows() {
    let image = main_of("var a:[[int;2];3] = [[1,2],[3,4],[5,6]]; var x:int = a[2][1];");
    let alloc = cat(&[op(0x80, 0), vec![4], 6i32.to_be_bytes().to_vec(), op(0x20, 24)]);
    let literal = cat(&[
        push(6),
        push(5),
        push(5),
        push(4),
        push(4),
        push(3),
        push(3),
        push(2),
        push(2),
        push(1),
        push(1),
        push(0),
    ]);
    let stores: Vec<u8> = (0..6).flat_map(|_| op(0x87, 0)).collect();
    let read = cat(&[
        push(2),
        push(8),
        vec![0x34],
        push(1),
        push(4),
        vec![0x34],
        vec![0x30],
        op(0x82, 0),
        op(0x24, 24),
    ]);
    let expected = cat(&[alloc, literal, stores, read, vec![0x64], STUBS.to_vec()]);
    assert_eq!(image.bytes, expected);
}

#[test]
fn a_node_without_main_is_refused() {
    assert_eq!(compile("node A { fn f() -> () { } }"), Err(CodegenError::MissingMain));
}

#[test]
fn a_node_without_functions_has_no_image() {
    let c = compile("node A { } node B: A { fn main() -> () { } }").unwrap();
    assert_eq!(c.images.len(), 1);
    assert_eq!(c.images[0].name, "B");
    assert_eq!(c.graph, "{\"A\":[],\"B\":[\"A\"]}");
}

#[test]
fn a_call_into_another_node_is_refused() {
    assert_eq!(
        compile("node A { fn main() -> () { g(); } } node B { fn main() -> () { } fn g() -> () { } }"),
        Err(CodegenError::UnresolvedCall)
    );
}

#[test]
fn a_variable_of_a_named_type_is_refused() {
    assert_eq!(
        compile("node A { fn main(a: T) -> () { var b: T = a; } }"),
        Err(CodegenError::UnsizedType)
    );
}

#[test]
fn operators_pick_the_opcode_of_their_type() {
    let image = main_of("var a:float = 1.5 * 2.5; var b:bool = 'a' == 'b'; if 1 != 0 { } var d:bool = 1.5 >= 2.5;");
    let b = &image.bytes;
    assert!(b.windows(11).any(|w| w == cat(&[op(0x11, 0), op(0x11, 0), vec![0x35]]).as_slice()));
    // No opcode compares characters.
    assert!(b.windows(5).any(|w| w == [0x15, b'a', 0x15, b'b', 0x00]));
    assert!(b.windows(11).any(|w| w == cat(&[push(1), push(0), vec![0x53]]).as_slice()));
    assert!(b.windows(11).any(|w| w == cat(&[op(0x11, 0), op(0x11, 0), vec![0x61]]).as_slice()));
    assert_eq!(image.floats.len(), 4);
}

#[test]
fn literals_encode_big_endian() {
    assert_eq!(be_bytes(0x01020304), [1, 2, 3, 4]);
    assert_eq!(be_bytes(0), [0, 0, 0, 0]);
    assert_eq!(be_bytes(u32::MAX), [255, 255, 255, 255]);
    assert_eq!(bits(-1), u32::MAX);
    assert_eq!(bits(i32::MIN), 0x8000_0000);
    assert_eq!(bits(7), 7);
    assert_eq!(byte('A'), 65);
    assert_eq!(byte('\u{141}'), 0x41);
    for n in [0i32, 1, -1, 255, 256, i32::MAX, i32::MIN, -123456] {
        assert_eq!(i32::from_be_bytes(be_bytes(bits(n))), n);
    }
}

#[test]
fn negative_literals_are_pushed_in_twos_complement() {
    let image = main_of("var a:int = -2;");
    assert_eq!(image.bytes[5..10], [0x10, 0xFF, 0xFF, 0xFF, 0xFE]);
}

#[test]
fn images_patch_in_place() {
    let mut img = Image::new();
    img.put_op(0x5A, 0);
    img.put_byte(0x64);
    img.note_call("f".to_string(), 1);
    assert_eq!(img.calls, vec![CallSite { offset: 2, name: "f".to_string(), origin: 1 }]);
    img.patch(1, 0x0A0B0C0D);
    assert_eq!(img.bytes, vec![0x5A, 0x0A, 0x0B, 0x0C, 0x0D, 0x64]);
    assert_eq!(img.offset(), Some(6));
}

#[test]
fn the_graph_text_escapes_names() {
    let graph = vec![
        Dependencies { node: "a\"b".to_string(), needs: vec!["x\\y".to_string(), "z".to_string()] },
        Dependencies { node: "c".to_string(), needs: vec![] },
    ];
    let text = encode_graph(&graph).unwrap();
    assert_eq!(text, "{\"a\\\"b\":[\"x\\\\y\",\"z\"],\"c\":[]}");
    assert_eq!(encode_graph(&vec![]).unwrap(), "{}");
}

#[test]
fn control_characters_are_escaped_in_the_graph() {
    let name = "\u{8}\t\n\u{c}\r\u{0}\u{1}\u{b}\u{1f} \u{7f}/\u{e9}\u{1F600}".to_string();
    let graph = vec![Dependencies { node: name, needs: vec![] }];
    let want = "{\"\\b\\t\\n\\f\\r\\u0000\\u0001\\u000b\\u001f \u{7f}/\u{e9}\u{1F600}\":[]}";
    assert_eq!(encode_graph(&graph), Ok(want.to_string()));
}

#[test]
fn items_are_joined_with_commas() {
    let items = vec!["1".to_string(), "22".to_string(), "".to_string(), "3".to_string()];
    assert_eq!(join_items('[', &items, ']'), "[1,22,,3]");
    assert_eq!(join_items('{', &vec![], '}'), "{}");
    assert_eq!(join_items('(', &vec!["x".to_string()], ')'), "(x)");
    assert_eq!(member("\"k\"".to_string(), &vec!["\"v\"".to_string()]), "\"k\":[\"v\"]");
}

#[test]
fn assembling_returns_the_first_error() {
    assert_eq!(
        assemble(Err(CodegenError::MissingMain), Ok("{}".to_string())),
        Err(CodegenError::MissingMain)
    );
    assert_eq!(assemble(Ok(vec![]), Err(CodegenError::Encoding)), Err(CodegenError::Encoding));
    assert_eq!(
        assemble(Ok(vec![]), Ok("{}".to_string())),
        Ok(Compiled { images: vec![], graph: "{}".to_string() })
    );
}

#[test]
fn emission_errors_have_diagnostics() {
    assert_eq!(
        CodegenError::MissingMain.message(),
        "could not compile: a node has no function main"
    );
    assert_eq!(
        CodegenError::IllTyped(11).message(),
        "could not compile: an expression has no type"
    );
    assert_eq!(
        CodegenError::UnresolvedCall.message(),
        "could not compile: a call leaves its node"
    );
}
