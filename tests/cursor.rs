use engraver::cursor::ChunkCursor;

fn lines(n: usize) -> String {
    let mut s = String::new();
    for i in 1..=n {
        s.push_str(&format!("L{}\n", i));
    }
    s
}

#[test]
fn chunks_follow_program_order() {
    let mut c = ChunkCursor::new("a\nb\nc\nd\ne", 2);
    assert_eq!(c.next(), "a\nb");
    assert_eq!(c.next(), "c\nd");
    assert_eq!(c.next(), "e");
    assert!(c.is_terminal());
    assert_eq!(c.next(), "");
}

#[test]
fn chunk_count_is_ceiling() {
    for n in 0..12usize {
        for size in 1..6usize {
            let program = lines(n);
            let mut c = ChunkCursor::new(&program, size);
            let mut chunks: Vec<String> = Vec::new();
            while !c.is_terminal() {
                chunks.push(c.next());
            }
            assert_eq!(chunks.len(), (n + size - 1) / size);
            if n > 0 {
                assert_eq!(chunks.join("\n") + "\n", program);
            }
        }
    }
}

#[test]
fn terminal_cursor_stays_empty() {
    let mut c = ChunkCursor::new("G1 X1", 3);
    assert_eq!(c.next(), "G1 X1");
    for _ in 0..5 {
        assert!(c.is_terminal());
        assert_eq!(c.next(), "");
    }
}

#[test]
fn empty_program_is_terminal() {
    let mut c = ChunkCursor::new("", 4);
    assert!(c.is_terminal());
    assert_eq!(c.next(), "");
}

#[test]
fn empty_lines_are_delivered() {
    let mut c = ChunkCursor::new("\n\nG1\n", 1);
    assert_eq!(c.next(), "");
    assert!(!c.is_terminal());
    assert_eq!(c.next(), "");
    assert_eq!(c.next(), "G1");
    assert!(c.is_terminal());
}

#[test]
fn chunk_larger_than_program() {
    let mut c = ChunkCursor::new("a\nb\n", 100);
    assert_eq!(c.next(), "a\nb");
    assert!(c.is_terminal());
}
