use bosun::text::{
    ascii_lower, decimal, is_before, is_white_space, parse_byte, same_text, split, split_lines,
    split_words, text_of, trim, Separator,
};
use bosun::text_map::TextMap;

#[test]
fn white_space_is_that_of_unicode() {
    for c in '\0'..=char::MAX {
        assert_eq!(is_white_space(c), c.is_whitespace(), "{c:?}");
    }
}

const SAMPLES: [&str; 14] = [
    "",
    " ",
    "a",
    " a b ",
    "\t\u{a0}x\u{2003}\n",
    "a+b+c",
    "+",
    "a++b",
    "one\ntwo\r\nthree\r",
    "\n",
    "\r\n\r\n",
    "ÄbC Zz",
    "bind-key  -T root   S-Left x",
    "a\nb",
];

#[test]
fn splitting_and_trimming_as_usual() {
    for s in SAMPLES {
        assert_eq!(trim(s), s.trim());
        assert_eq!(ascii_lower(s), s.to_ascii_lowercase());
        assert_eq!(split(s, Separator::Exactly('+')), s.split('+').collect::<Vec<_>>());
        assert_eq!(split_words(s), s.split_whitespace().collect::<Vec<_>>());
        assert_eq!(split_lines(s), s.lines().collect::<Vec<_>>());
        for t in SAMPLES {
            assert_eq!(is_before(s, t), s < t);
            assert_eq!(same_text(s, t), s == t);
        }
    }
}

#[test]
fn numbers() {
    for n in [0, 1, 9, 10, 255, 65535, usize::MAX] {
        assert_eq!(decimal(n), n.to_string());
    }
    for s in ["", "0", "7", "007", "12", "255", "256", "1000", "99999999999999999999", "-1", "1x"] {
        let chars: Vec<char> = s.chars().collect();
        assert_eq!(parse_byte(&chars, 0), s.parse::<u8>().ok(), "{s}");
    }
    assert_eq!(text_of(&vec!['a', 'b', 'c'], 1, 3), "bc");
}

#[test]
fn maps_keep_their_keys_in_order() {
    let mut map: TextMap<String> = TextMap::new();
    for key in ["b", "a", "é", "ab", "", "b"] {
        let value = format!("{key}{}", map.len());
        map.insert(key.to_string(), value);
    }
    let keys: Vec<&str> = map.items().iter().map(|e| e.0.as_str()).collect();
    assert_eq!(keys, ["", "a", "ab", "b", "é"]);
    assert_eq!(map.get("b"), Some(&"b5".to_string()));
    assert_eq!(map.get("c"), None);
    assert!(map.contains_key("") && !map.contains_key("aa"));
    assert_eq!(map.key_at(2), "ab");
    assert_eq!(map.value_at(2), "ab3");
}
