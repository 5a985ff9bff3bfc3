use code_sherpa::chunking::bytes::{measure, size_of, width_of};

#[test]
fn width_is_the_length_of_the_encoding() {
    for code in (0u32..0x11_0000).step_by(7).chain([0x7f, 0x80, 0x7ff, 0x800, 0xffff, 0x1_0000, 0x10_ffff]) {
        if let Some(c) = char::from_u32(code) {
            assert_eq!(width_of(c), c.len_utf8());
        }
    }
}

#[test]
fn size_is_the_length_in_bytes() {
    assert_eq!(size_of(""), 0);
    assert_eq!(size_of("abc"), 3);
    assert_eq!(size_of("a€𝄞é"), 1 + 3 + 4 + 2);
}

#[test]
fn offsets_are_where_the_characters_begin() {
    assert_eq!(measure(""), (vec![], vec![0]));
    assert_eq!(measure("abc"), (vec!['a', 'b', 'c'], vec![0, 1, 2, 3]));
    assert_eq!(measure("a€𝄞é"), (vec!['a', '€', '𝄞', 'é'], vec![0, 1, 4, 8, 10]));
    let text = "søk «日本語» — naïve\n";
    let (chars, offsets) = measure(text);
    let expected: Vec<usize> =
        text.char_indices().map(|(offset, _)| offset).chain([text.len()]).collect();
    assert_eq!(chars, text.chars().collect::<Vec<char>>());
    assert_eq!(offsets, expected);
}
