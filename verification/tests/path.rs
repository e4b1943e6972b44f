use fat_fs::path::{find_segment, Path};

fn segments(path: &[u8]) -> Vec<Vec<u8>> {
    let mut p = Path::new(path);
    let mut out = Vec::new();
    while let Some(s) = p.next() {
        out.push(s.to_vec());
    }
    out
}

#[test]
fn path_is_cut_at_both_separators() {
    assert_eq!(segments(b"a/b/c.txt"), [b"a".to_vec(), b"b".to_vec(), b"c.txt".to_vec()]);
    assert_eq!(segments(b"a\\b/c"), [b"a".to_vec(), b"b".to_vec(), b"c".to_vec()]);
    assert_eq!(segments(b"single"), [b"single".to_vec()]);
    assert_eq!(segments(b"with space/and.dots.."), [b"with space".to_vec(), b"and.dots..".to_vec()]);
}

#[test]
fn empty_segments_are_passed_over() {
    assert_eq!(segments(b"/a/b/c.txt"), [b"a".to_vec(), b"b".to_vec(), b"c.txt".to_vec()]);
    assert_eq!(segments(b"a//b"), [b"a".to_vec(), b"b".to_vec()]);
    assert_eq!(segments(b"a/b/"), [b"a".to_vec(), b"b".to_vec()]);
    assert_eq!(segments(b"\\\\/a\\/\\b//"), [b"a".to_vec(), b"b".to_vec()]);
    assert!(segments(b"").is_empty());
    assert!(segments(b"/").is_empty());
    assert!(segments(b"//\\").is_empty());
}

#[test]
fn next_moves_behind_the_separator() {
    let mut p = Path::new(b"ab/cd//e");
    assert_eq!(p.pos, 0);
    assert_eq!(p.next(), Some(&b"ab"[..]));
    assert_eq!(p.pos, 3);
    assert_eq!(p.next(), Some(&b"cd"[..]));
    assert_eq!(p.pos, 6);
    assert_eq!(p.next(), Some(&b"e"[..]));
    assert_eq!(p.pos, 8);
    assert_eq!(p.next(), None);
    assert_eq!(p.pos, 8);
    assert_eq!(p.next(), None);
}

#[test]
fn is_end_tells_that_at_most_one_byte_is_left() {
    let mut p = Path::new(b"ab/cd/");
    assert!(!p.is_end());
    p.next();
    assert!(!p.is_end());
    p.next();
    assert!(p.is_end());
    assert!(Path::new(b"").is_end());
    assert!(Path::new(b"a").is_end());
    assert!(!Path::new(b"ab").is_end());
    let mut q = Path::new(b"ab/c");
    q.next();
    assert!(q.is_end());
}

#[test]
fn find_segment_gives_the_bounds_of_the_next_segment() {
    assert_eq!(find_segment(b"//ab/c", 0), Some((2, 4)));
    assert_eq!(find_segment(b"//ab/c", 2), Some((2, 4)));
    assert_eq!(find_segment(b"//ab/c", 3), Some((3, 4)));
    assert_eq!(find_segment(b"//ab/c", 4), Some((5, 6)));
    assert_eq!(find_segment(b"//ab/c", 6), None);
    assert_eq!(find_segment(b"//", 0), None);
}
