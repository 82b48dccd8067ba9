use nodelang::codegen::NodeImage;
use nodelang::lexer::Lexer;
use nodelang::parser::Parser;
use nodelang::source::{Compiled, Source};

const PROGRAM: &str = r#"
// A node that sorts and prints, and one that only counts.
node Sorter: Counter {
    fn swap(i: int, j: int) -> () {
        // Parameters are bound on entry.
        var t: int = i;
        i = j;
        j = t;
    }

    fn max(a: [int; 4]) -> int {
        var best: int = a[0];
        var k: int = 1;
        while k < 4 {
            if a[k] > best {
                best = a[k];
            } else {
                print_char('.');
            }
            k = k + 1;
        }
        return best;
    }

    fn main() -> () {
        var data: [int; 4] = [3, -1, 4, 1];
        var grid: [[float; 2]; 2] = [[1.5, -2.5], [0.0, 3.25]];
        const limit: int = max(data) * 2 - 1;
        var ok: bool = limit >= 7 && limit - 1 < 10 || false;
        if ok {
            print_int(limit);
            println();
        }
        grid[1][0] = grid[0][1];
        swap(data[0], data[3]);
    }
}

node Counter {
    fn main() -> ! {
        while true {
            var n: int = 0;
            n = n + 1;
        }
    }
}
"#;

fn compile() -> Compiled {
    let mut p = Parser::new(Lexer::new(PROGRAM.chars().collect()));
    assert_eq!(p.parse(), Ok(()));
    p.generate_ast();
    let source = Source::new(p).unwrap();
    source.compile().unwrap()
}

fn word(image: &NodeImage, at: usize) -> usize {
    u32::from_be_bytes([
        image.bytes[at],
        image.bytes[at + 1],
        image.bytes[at + 2],
        image.bytes[at + 3],
    ]) as usize
}

#[test]
fn a_program_of_two_nodes_compiles() {
    let c = compile();
    assert_eq!(c.images.len(), 2);
    assert_eq!(c.images[0].name, "Sorter");
    assert_eq!(c.images[1].name, "Counter");
    assert_eq!(c.graph, "{\"Sorter\":[\"Counter\"],\"Counter\":[]}");
}

#[test]
fn main_starts_every_image_and_functions_follow_in_order() {
    let c = compile();
    let sorter = &c.images[0];
    // swap, max, main in the order of their declarations.
    assert_eq!(sorter.starts.len(), 3);
    assert_eq!(sorter.starts[2], 0);
    assert!(0 < sorter.starts[0]);
    assert!(sorter.starts[0] < sorter.starts[1]);
    assert!(sorter.starts[1] < sorter.bytes.len() - 12);
    assert_eq!(c.images[1].starts, vec![0]);
}

#[test]
fn every_call_holds_the_start_of_its_callee() {
    let c = compile();
    let sorter = &c.images[0];
    let stubs = sorter.bytes.len() - 12;
    let names: Vec<&str> = sorter.calls.iter().map(|s| s.name.as_str()).collect();
    // The calls of main come first, as main does.
    assert_eq!(names, vec!["max", "print_int", "println", "swap", "print_char"]);
    let targets: Vec<usize> = sorter.calls.iter().map(|s| word(sorter, s.offset)).collect();
    assert_eq!(
        targets,
        vec![sorter.starts[1], stubs, stubs + 8, sorter.starts[0], stubs + 6]
    );
    for site in &sorter.calls {
        assert_eq!(sorter.bytes[site.offset - 1], 0x5A);
        assert!(word(sorter, site.offset) < sorter.bytes.len());
    }
    // The places of the calls lie apart, in the order of emission.
    for pair in sorter.calls.windows(2) {
        assert!(pair[0].offset + 4 <= pair[1].offset);
    }
}

#[test]
fn every_float_literal_awaits_its_bits() {
    let c = compile();
    let sorter = &c.images[0];
    let digits: Vec<(bool, &str)> =
        sorter.floats.iter().map(|s| (s.literal.negative, s.literal.digits.as_str())).collect();
    // The elements of a literal are emitted from the last to the first.
    assert_eq!(
        digits,
        vec![(false, "3.25"), (false, "0.0"), (true, "2.5"), (false, "1.5")]
    );
    for site in &sorter.floats {
        assert_eq!(sorter.bytes[site.offset - 1], 0x11);
        assert_eq!(word(sorter, site.offset), 0);
    }
}

#[test]
fn the_image_ends_with_the_print_functions() {
    let c = compile();
    for image in &c.images {
        let n = image.bytes.len();
        assert_eq!(
            image.bytes[n - 12..],
            [0x90, 0x64, 0x91, 0x64, 0x92, 0x64, 0x93, 0x64, 0x15, 0x0A, 0x93, 0x64]
        );
    }
}

#[test]
fn a_function_that_never_returns_loops_back() {
    let c = compile();
    let counter = &c.images[1];
    let expected: Vec<u8> = vec![
        0x20, 0, 0, 0, 0, // the slot of n
        0x14, 1, // true: the loop starts here, at 5
        0x51, 0, 0, 0, 43, // leave the loop when false
        0x10, 0, 0, 0, 0, // 0
        0x24, 0, 0, 0, 0, // into n
        0x22, 0, 0, 0, 0, // n
        0x10, 0, 0, 0, 1, // 1
        0x30, // plus
        0x24, 0, 0, 0, 0, // into n
        0x5A, 0, 0, 0, 5, // back to the condition
    ];
    assert_eq!(counter.bytes[..43], expected[..]);
    assert_eq!(counter.bytes.len(), 43 + 12);
}
