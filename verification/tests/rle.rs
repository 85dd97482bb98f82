use gol_cube::rle::RleError;
use gol_cube::{import_golcube_rle, load_rle};

#[test]
fn loads_simple_pattern() {
    let (data, width) = load_rle(b"x = 3, y = 2\nbo$2o!").unwrap();
    assert_eq!(width, 3);
    assert_eq!(data, vec![false, true, false, true, true, false]);
}

#[test]
fn skips_comment_lines() {
    let (data, width) = load_rle(b"#C a comment\n#N name\nx = 2, y = 2\no!").unwrap();
    assert_eq!(width, 2);
    assert_eq!(data, vec![true, false, false, false]);
}

#[test]
fn header_allows_spaces_plus_and_extra_sections() {
    let (data, width) = load_rle(b"x = +2 , y = 1, rule = B3/S23\n2o!").unwrap();
    assert_eq!(width, 2);
    assert_eq!(data, vec![true, true]);
}

#[test]
fn multi_digit_run_counts() {
    let (data, width) = load_rle(b"x = 12, y = 1\n10o2b!").unwrap();
    assert_eq!(width, 12);
    let mut expected = vec![true; 10];
    expected.extend([false, false]);
    assert_eq!(data, expected);
}

#[test]
fn rows_pad_to_width_and_pattern_pads_to_height() {
    let (data, width) = load_rle(b"x = 3, y = 3\no$2o!").unwrap();
    assert_eq!(width, 3);
    assert_eq!(
        data,
        vec![true, false, false, true, true, false, false, false, false]
    );
}

#[test]
fn data_may_span_lines_with_whitespace() {
    let (data, width) = load_rle(b"x = 2, y = 2\no b\r\n$ oo !").unwrap();
    assert_eq!(width, 2);
    assert_eq!(data, vec![true, false, true, true]);
}

#[test]
fn unterminated_pattern_is_padded() {
    let (data, width) = load_rle(b"x = 2, y = 2\no").unwrap();
    assert_eq!(width, 2);
    assert_eq!(data, vec![true, false, false, false]);
}

#[test]
fn empty_input_misses_header() {
    assert_eq!(load_rle(b"").unwrap_err(), RleError::MissingHeader);
}

#[test]
fn all_comments_misses_header() {
    assert_eq!(load_rle(b"#C a\n#C b").unwrap_err(), RleError::MissingHeader);
}

#[test]
fn swapped_header_names_are_rejected() {
    assert_eq!(
        load_rle(b"y = 2, x = 2\no!").unwrap_err(),
        RleError::BadHeader
    );
}

#[test]
fn missing_second_section_is_rejected() {
    assert_eq!(load_rle(b"x = 2\no!").unwrap_err(), RleError::BadHeader);
}

#[test]
fn non_numeric_header_value_is_rejected() {
    assert_eq!(
        load_rle(b"x = two, y = 1\no!").unwrap_err(),
        RleError::BadHeader
    );
}

#[test]
fn overlong_row_is_rejected_at_its_terminator() {
    assert_eq!(
        load_rle(b"x = 1, y = 1\n3o!").unwrap_err(),
        RleError::RowTooLong
    );
    assert_eq!(
        load_rle(b"x = 2, y = 2\nooo$o!").unwrap_err(),
        RleError::RowTooLong
    );
}

#[test]
fn unknown_byte_is_rejected() {
    assert_eq!(
        load_rle(b"x = 2, y = 1\nzz!").unwrap_err(),
        RleError::BadCharacter
    );
}

#[test]
fn too_many_rows_are_rejected() {
    assert_eq!(
        load_rle(b"x = 2, y = 1\no$o$o!").unwrap_err(),
        RleError::TooLarge
    );
}

#[test]
fn pending_digits_are_dropped_at_row_end() {
    // a count with no following cell tag is discarded by `$`
    let (data, width) = load_rle(b"x = 2, y = 2\no3$o!").unwrap();
    assert_eq!(width, 2);
    assert_eq!(data, vec![true, false, true, false]);
}

#[test]
fn import_places_pattern_on_first_face() {
    let cube = import_golcube_rle(b"x = 3, y = 2\n3o$3o!").unwrap();
    assert_eq!(cube.width, 3);
    assert_eq!(cube.data.len(), 54);
    for i in 0..6 {
        assert!(cube.data[i]);
    }
    for i in 6..54 {
        assert!(!cube.data[i]);
    }
}

#[test]
fn import_sides_with_the_taller_pattern() {
    // height 2 beats width 1: the cube side is 2 and the pattern's rows are
    // padded out to it
    let cube = import_golcube_rle(b"x = 1, y = 2\no$o!").unwrap();
    assert_eq!(cube.width, 2);
    assert_eq!(cube.data.len(), 24);
    assert!(cube.data[0]);
    assert!(!cube.data[1]);
    assert!(cube.data[2]);
    assert!(!cube.data[3]);
    for i in 4..24 {
        assert!(!cube.data[i]);
    }
}

#[test]
fn import_rejects_zero_width() {
    assert_eq!(
        import_golcube_rle(b"x = 0, y = 0\n!").unwrap_err(),
        RleError::BadHeader
    );
}

#[test]
fn run_count_digits_persist_across_lines() {
    // the digit accumulator is not reset by a line break: "1" then "2o" is a
    // run of twelve
    let (data, width) = load_rle(b"x = 12, y = 1\n1\n2o!").unwrap();
    assert_eq!(width, 12);
    assert_eq!(data, vec![true; 12]);
}

#[test]
fn oversized_run_count_falls_back_to_one() {
    // a run count too large for the machine counts as a single cell
    let (data, width) = load_rle(b"x = 2, y = 1\n99999999999999999999999999999999999999990o!").unwrap();
    assert_eq!(width, 2);
    assert_eq!(data, vec![true, false]);
}
