use pascal_front::chars::{
    blank, classify, classify_text, decimal_digit, digit_of, name_part, name_start, Glyph,
};

#[test]
fn classes_are_those_of_unicode() {
    assert_eq!(
        classify('a'),
        Glyph { c: 'a', white_space: false, alphabetic: true, alphanumeric: true }
    );
    assert_eq!(
        classify('7'),
        Glyph { c: '7', white_space: false, alphabetic: false, alphanumeric: true }
    );
    assert_eq!(
        classify(' '),
        Glyph { c: ' ', white_space: true, alphabetic: false, alphanumeric: false }
    );
    assert_eq!(
        classify('\n'),
        Glyph { c: '\n', white_space: true, alphabetic: false, alphanumeric: false }
    );
    assert_eq!(
        classify('_'),
        Glyph { c: '_', white_space: false, alphabetic: false, alphanumeric: false }
    );
    assert_eq!(
        classify('京'),
        Glyph { c: '京', white_space: false, alphabetic: true, alphanumeric: true }
    );
    assert_eq!(
        classify('٣'),
        Glyph { c: '٣', white_space: false, alphabetic: false, alphanumeric: true }
    );
    assert_eq!(
        classify(';'),
        Glyph { c: ';', white_space: false, alphabetic: false, alphanumeric: false }
    );
}

#[test]
fn text_is_classed_character_by_character() {
    assert_eq!(classify_text("a 1"), vec![classify('a'), classify(' '), classify('1')]);
    assert_eq!(classify_text("变\n"), vec![classify('变'), classify('\n')]);
    assert!(classify_text("").is_empty());
}

#[test]
fn blanks_are_white_space_but_the_line_feed() {
    assert!(blank(classify(' ')));
    assert!(blank(classify('\t')));
    assert!(blank(classify('\r')));
    assert!(blank(classify('\u{a0}')));
    assert!(blank(classify('\u{3000}')));
    assert!(!blank(classify('\n')));
    assert!(!blank(classify('a')));
    assert!(!blank(classify('_')));
    assert!(!blank(classify('0')));
}

#[test]
fn names_begin_with_a_letter_or_an_underscore() {
    assert!(name_start(classify('a')));
    assert!(name_start(classify('Z')));
    assert!(name_start(classify('_')));
    assert!(name_start(classify('é')));
    assert!(name_start(classify('京')));
    assert!(!name_start(classify('1')));
    assert!(!name_start(classify(' ')));
    assert!(!name_start(classify('-')));
    assert!(!name_start(classify('\n')));
}

#[test]
fn names_go_on_with_letters_digits_and_underscores() {
    assert!(name_part(classify('a')));
    assert!(name_part(classify('_')));
    assert!(name_part(classify('7')));
    assert!(name_part(classify('٣')));
    assert!(name_part(classify('京')));
    assert!(!name_part(classify(' ')));
    assert!(!name_part(classify(';')));
    assert!(!name_part(classify('\n')));
}

#[test]
fn classes_decide_whatever_the_character() {
    let odd = Glyph { c: '#', white_space: false, alphabetic: true, alphanumeric: true };
    assert!(name_start(odd));
    assert!(name_part(odd));
    let plain = Glyph { c: 'a', white_space: false, alphabetic: false, alphanumeric: false };
    assert!(!name_start(plain));
    assert!(!name_part(plain));
    let wide = Glyph { c: 'a', white_space: true, alphabetic: false, alphanumeric: false };
    assert!(blank(wide));
    let feed = Glyph { c: '\n', white_space: true, alphabetic: true, alphanumeric: true };
    assert!(!blank(feed));
}

#[test]
fn decimal_digits_and_their_values() {
    for (i, c) in "0123456789".chars().enumerate() {
        assert!(decimal_digit(c));
        assert_eq!(digit_of(c), i as i64);
    }
    assert!(!decimal_digit('a'));
    assert!(!decimal_digit('/'));
    assert!(!decimal_digit(':'));
    assert!(!decimal_digit('٣'));
}
