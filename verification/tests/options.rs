use cn_options::numeric_key::get_number_from_string;
use cn_options::options::Options;

#[test]
fn sort_numerically() {
    let mut options = Options::default();

    options.input_filenames = vec!["010".to_string(), "2".to_string(), "a".to_string()];

    options.sort_filenames();

    assert_eq!(
        options.input_filenames,
        vec!["a".to_string(), "2".to_string(), "010".to_string()]
    );
}

#[test]
fn get_number_from_filename() {
    assert_eq!(get_number_from_string("photo123.png"), 123usize);
    assert_eq!(get_number_from_string("abc"), 0usize);
}

#[test]
fn key_of_empty_string_is_zero() {
    assert_eq!(get_number_from_string(""), 0usize);
}

#[test]
fn key_concatenates_separate_digit_runs() {
    assert_eq!(get_number_from_string("1a2b3"), 123usize);
}

#[test]
fn key_of_overflowing_digit_string_is_zero() {
    assert_eq!(get_number_from_string("9999999999999999999999999999999"), 0usize);
}

#[test]
fn default_construction() {
    let options = Options::default();
    assert!(!options.verbose);
    assert!(!options.sort_numerically);
    assert_eq!(options.basename, Some("cn".to_string()));
    assert_eq!(options.output_name, Some("output.pdf".to_string()));
    assert!(options.input_filenames.is_empty());
}

#[test]
fn load_of_empty_mapping_is_default() {
    let options = Options::load(false, false, None, None);
    assert!(!options.verbose);
    assert!(!options.sort_numerically);
    assert_eq!(options.basename, Some("cn".to_string()));
    assert_eq!(options.output_name, Some("output.pdf".to_string()));
    assert!(options.input_filenames.is_empty());
}

#[test]
fn flag_override() {
    let options = Options::load(true, true, None, None);
    assert!(options.verbose);
    assert!(options.sort_numerically);
    assert_eq!(options.basename, Some("cn".to_string()));
    assert_eq!(options.output_name, Some("output.pdf".to_string()));
    assert!(options.input_filenames.is_empty());
}

#[test]
fn basename_override() {
    let options = Options::load(false, false, Some("mydoc".to_string()), None);
    assert!(!options.verbose);
    assert!(!options.sort_numerically);
    assert_eq!(options.basename, Some("mydoc".to_string()));
    assert_eq!(options.output_name, Some("output.pdf".to_string()));
    assert!(options.input_filenames.is_empty());
}

#[test]
fn order_preserved_when_not_sorting() {
    let input = vec!["b.png".to_string(), "a.png".to_string(), "10.png".to_string()];
    let options = Options::load(false, false, None, Some(input.clone()));
    assert_eq!(options.input_filenames, input);
}

#[test]
fn load_sorts_when_requested() {
    let input = vec!["010".to_string(), "2".to_string(), "a".to_string()];
    let options = Options::load(false, true, None, Some(input));
    assert_eq!(
        options.input_filenames,
        vec!["a".to_string(), "2".to_string(), "010".to_string()]
    );
}

#[test]
fn adjacent_keys_non_decreasing_after_sort() {
    let input = vec![
        "page10.png".to_string(),
        "page2.png".to_string(),
        "cover.png".to_string(),
        "page1.png".to_string(),
    ];
    let options = Options::load(false, true, None, Some(input));
    for pair in options.input_filenames.windows(2) {
        assert!(get_number_from_string(&pair[0]) <= get_number_from_string(&pair[1]));
    }
}

#[test]
fn equal_keys_keep_relative_order() {
    let input = vec!["b.png".to_string(), "a.png".to_string()];
    let options = Options::load(false, true, None, Some(input.clone()));
    assert_eq!(options.input_filenames, input);
}

#[test]
fn sorting_twice_changes_nothing() {
    let mut options = Options::default();
    options.input_filenames = vec![
        "030".to_string(),
        "photo2.jpg".to_string(),
        "none".to_string(),
        "x1y".to_string(),
    ];
    options.sort_filenames();
    let once = options.input_filenames.clone();
    options.sort_filenames();
    assert_eq!(options.input_filenames, once);
}

#[test]
fn sorting_empty_list_is_a_no_op() {
    let options = Options::load(false, true, None, Some(Vec::new()));
    assert!(options.input_filenames.is_empty());
}
