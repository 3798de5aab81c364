use revom::map_format::{map_to_string, parse_map, PathRecord};
use revom::text::{chars_of, parse_bool, parse_i8, push_bool_text, push_i8_text, split_chars, string_of};

fn record(x: &str, layer: i8, hori: bool) -> PathRecord {
    PathRecord {
        x: x.to_string(),
        y: "196".to_string(),
        w: "300".to_string(),
        h: "42".to_string(),
        d1: "0.3".to_string(),
        d2: "1".to_string(),
        rnd_end1: true,
        rnd_end2: false,
        hori,
        layer,
    }
}

fn same(a: &PathRecord, b: &PathRecord) -> bool {
    a.x == b.x
        && a.y == b.y
        && a.w == b.w
        && a.h == b.h
        && a.d1 == b.d1
        && a.d2 == b.d2
        && a.rnd_end1 == b.rnd_end1
        && a.rnd_end2 == b.rnd_end2
        && a.hori == b.hori
        && a.layer == b.layer
}

#[test]
fn writes_one_record() {
    let text = map_to_string(&vec![record("209", 1, true)]);
    assert_eq!(text, "209,196,300,42,0.3,1,true,false,true,1");
}

#[test]
fn writes_records_separated_by_semicolons() {
    let text = map_to_string(&vec![record("209", 1, true), record("-5.5", -128, false)]);
    assert_eq!(
        text,
        "209,196,300,42,0.3,1,true,false,true,1;-5.5,196,300,42,0.3,1,true,false,false,-128"
    );
}

#[test]
fn writes_empty_map_as_empty_text() {
    assert_eq!(map_to_string(&vec![]), "");
}

#[test]
fn reads_back_what_was_written() {
    let map = vec![record("1", 10, true), record("2.25", 127, false), record("inf", -3, true)];
    let text = map_to_string(&map);
    let back = parse_map(&text).expect("readable");
    assert_eq!(back.len(), map.len());
    for (a, b) in back.iter().zip(map.iter()) {
        assert!(same(a, b));
    }
}

#[test]
fn reads_a_record_and_ignores_extra_fields() {
    let back = parse_map("1,2,3,4,0.5,0.25,false,true,false,+7,extra").expect("readable");
    assert_eq!(back.len(), 1);
    assert_eq!(back[0].x, "1");
    assert_eq!(back[0].d2, "0.25");
    assert!(!back[0].rnd_end1 && back[0].rnd_end2 && !back[0].hori);
    assert_eq!(back[0].layer, 7);
}

#[test]
fn rejects_too_few_fields() {
    assert!(parse_map("1,2,3,4,0.5,0.25,false,true,false").is_none());
    assert!(parse_map("").is_none());
}

#[test]
fn rejects_bad_flag_or_layer() {
    assert!(parse_map("1,2,3,4,5,6,True,true,true,1").is_none());
    assert!(parse_map("1,2,3,4,5,6,true,true,true,128").is_none());
    assert!(parse_map("1,2,3,4,5,6,true,true,true,1;1,2,3").is_none());
}

#[test]
fn reads_i8_like_std() {
    for s in ["0", "7", "-128", "127", "+12", "007", "-0", "128", "-129", "+", "-", "", "1a", " 1", "٣"] {
        let expected = s.parse::<i8>().ok();
        assert_eq!(parse_i8(&s.chars().collect()), expected, "{}", s);
    }
}

#[test]
fn reads_bool_like_std() {
    for s in ["true", "false", "True", "", "tru", "falsee"] {
        let expected = s.parse::<bool>().ok();
        assert_eq!(parse_bool(&s.chars().collect()), expected, "{}", s);
    }
}

#[test]
fn writes_i8_and_bool_like_std() {
    for v in [-128i8, -10, -1, 0, 9, 10, 99, 100, 127] {
        let mut s = String::new();
        push_i8_text(&mut s, v);
        assert_eq!(s, v.to_string());
    }
    for b in [true, false] {
        let mut s = String::new();
        push_bool_text(&mut s, b);
        assert_eq!(s, b.to_string());
    }
}

#[test]
fn splits_like_std() {
    for s in ["", ";", "a;b", ";a;;b;", "abc"] {
        let pieces: Vec<String> = split_chars(&chars_of(s), ';').iter().map(|p| string_of(p)).collect();
        let expected: Vec<String> = s.split(';').map(|p| p.to_string()).collect();
        assert_eq!(pieces, expected);
    }
}
