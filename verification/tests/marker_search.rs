use pacman::marker::contains_zsync_marker;

#[test]
fn the_marker_alone_is_found() {
    assert!(contains_zsync_marker(".zsync"));
}

#[test]
fn the_empty_text_holds_no_marker() {
    assert!(!contains_zsync_marker(""));
}

#[test]
fn the_marker_is_found_at_the_start_in_the_middle_and_at_the_end() {
    assert!(contains_zsync_marker(".zsync.tail"));
    assert!(contains_zsync_marker("head.zsync.tail"));
    assert!(contains_zsync_marker("head.zsync"));
    assert!(contains_zsync_marker("http://host/a/b/pkg-1.0.zip.zsync"));
}

#[test]
fn a_marker_cut_short_is_not_found() {
    assert!(!contains_zsync_marker("."));
    assert!(!contains_zsync_marker(".z"));
    assert!(!contains_zsync_marker(".zs"));
    assert!(!contains_zsync_marker(".zsy"));
    assert!(!contains_zsync_marker(".zsyn"));
    assert!(!contains_zsync_marker("zsync"));
    assert!(!contains_zsync_marker("pkg.zsyn"));
    assert!(!contains_zsync_marker(".zsyn.zsyn"));
}

#[test]
fn a_match_that_breaks_off_may_start_again_at_a_full_stop() {
    assert!(contains_zsync_marker("..zsync"));
    assert!(contains_zsync_marker(".z.zsync"));
    assert!(contains_zsync_marker(".zs.zsync"));
    assert!(contains_zsync_marker(".zsy.zsync"));
    assert!(contains_zsync_marker(".zsyn.zsync"));
    assert!(contains_zsync_marker(".zsyn.zsyn.zsync"));
    assert!(contains_zsync_marker("......zsync"));
    assert!(!contains_zsync_marker(".zsyn.c"));
    assert!(!contains_zsync_marker(".z.s.y.n.c"));
    assert!(!contains_zsync_marker(".zzsync"));
}

#[test]
fn letters_of_another_case_do_not_match() {
    assert!(!contains_zsync_marker(".ZSYNC"));
    assert!(!contains_zsync_marker(".Zsync"));
    assert!(!contains_zsync_marker(".zsynC"));
}

#[test]
fn characters_of_several_bytes_count_as_one_each() {
    assert!(contains_zsync_marker("é.zsync"));
    assert!(contains_zsync_marker("包.zsync包"));
    assert!(contains_zsync_marker("\u{1F4E6}.zsync"));
    assert!(!contains_zsync_marker(".zs\u{00FF}ync"));
    assert!(!contains_zsync_marker(".zsy\u{0308}nc"));
    assert!(!contains_zsync_marker("。zsync"));
}

#[test]
fn the_search_agrees_with_the_standard_one_on_every_short_text() {
    let letters = ['.', 'z', 's', 'y', 'n', 'c', 'x'];
    let mut texts: Vec<String> = vec![String::new()];
    let mut checked: usize = 0;
    for _ in 0..7 {
        let mut longer: Vec<String> = Vec::with_capacity(texts.len() * letters.len());
        for text in &texts {
            for letter in letters {
                let mut next = text.clone();
                next.push(letter);
                assert_eq!(contains_zsync_marker(&next), next.contains(".zsync"), "{:?}", next);
                checked += 1;
                longer.push(next);
            }
        }
        texts = longer;
    }
    assert_eq!(checked, 7 + 49 + 343 + 2401 + 16807 + 117649 + 823543);
}

#[test]
fn the_search_agrees_with_the_standard_one_on_texts_made_of_marker_pieces() {
    let pieces = [".", ".z", ".zs", ".zsy", ".zsyn", ".zsync", "z", "c", "é", ""];
    let mut checked: usize = 0;
    for a in pieces {
        for b in pieces {
            for c in pieces {
                for d in pieces {
                    let text = format!("{}{}{}{}", a, b, c, d);
                    assert_eq!(contains_zsync_marker(&text), text.contains(".zsync"), "{:?}", text);
                    checked += 1;
                }
            }
        }
    }
    assert_eq!(checked, 10_000);
}
