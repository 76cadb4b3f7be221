use robusta::convert::{
    bool_from, bool_into, bools_from, bools_into, char_from, char_into, optional_string_from, optional_string_into, string_from,
    string_into, strings_from, strings_into,
};

fn round_trip(xs: Vec<String>) {
    let units = strings_into(&xs);
    assert_eq!(units.len(), xs.len());
    for (u, x) in units.iter().zip(xs.iter()) {
        assert_eq!(*u, x.encode_utf16().collect::<Vec<u16>>());
    }
    assert_eq!(strings_from(&units), Some(xs));
}

#[test]
fn string_lists_round_trip() {
    round_trip(vec![]);
    round_trip(vec!["hello".to_string()]);
    round_trip(vec!["a".to_string(), "".to_string(), "é€😀".to_string(), "zz".to_string()]);
}

#[test]
fn booleans_round_trip() {
    assert_eq!(bool_into(true), 1);
    assert_eq!(bool_into(false), 0);
    assert!(bool_from(bool_into(true)));
    assert!(!bool_from(bool_into(false)));
    assert!(!bool_from(2));
}

#[test]
fn strings_outside_the_basic_plane_use_surrogates() {
    assert_eq!(string_into(&"😀".to_string()), vec![0xD83D, 0xDE00]);
    assert_eq!(string_into(&"aé".to_string()), vec![0x61, 0xE9]);
    assert_eq!(string_from(&vec![0xD83D, 0xDE00]), Some("😀".to_string()));
    assert_eq!(string_from(&vec![0xD83D]), None);
    assert_eq!(string_from(&vec![0xDE00, 0x61]), None);
    assert_eq!(string_from(&vec![]), Some(String::new()));
    assert_eq!(strings_from(&vec![vec![0x61], vec![0xDC00]]), None);
}

#[test]
fn chars_convert_within_the_basic_plane() {
    assert_eq!(char_into('A'), Some(65));
    assert_eq!(char_into('😀'), None);
    assert_eq!(char_from(0x20AC), Some('€'));
    assert_eq!(char_from(0xD800), None);
}

#[test]
fn optional_strings_null_means_none() {
    assert_eq!(optional_string_into(&None), None);
    assert_eq!(optional_string_from(&None), Some(None));
    let units = optional_string_into(&Some("hi".to_string()));
    assert_eq!(units, Some(vec![0x68, 0x69]));
    assert_eq!(optional_string_from(&units), Some(Some("hi".to_string())));
    assert_eq!(optional_string_from(&Some(vec![0xDBFF])), None);
}

#[test]
fn boolean_arrays_convert_element_by_element() {
    assert_eq!(bools_into(&vec![true, false, true]), vec![1, 0, 1]);
    assert_eq!(bools_from(&vec![1, 0, 2, 1]), vec![true, false, false, true]);
    assert_eq!(bools_into(&vec![]), Vec::<u8>::new());
}
