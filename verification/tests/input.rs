use zk_membership::input::{parse_leaf_input, parse_u8, split_on_spaces};

fn chars(s: &str) -> Vec<char> {
    s.chars().collect()
}

#[test]
fn parse_u8_reads_decimal_bytes() {
    assert_eq!(parse_u8(&chars("0")), Some(0));
    assert_eq!(parse_u8(&chars("20")), Some(20));
    assert_eq!(parse_u8(&chars("255")), Some(255));
    assert_eq!(parse_u8(&chars("007")), Some(7));
    assert_eq!(parse_u8(&chars("+7")), Some(7));
}

#[test]
fn parse_u8_refuses_what_is_not_a_byte() {
    assert_eq!(parse_u8(&chars("")), None);
    assert_eq!(parse_u8(&chars("+")), None);
    assert_eq!(parse_u8(&chars("256")), None);
    assert_eq!(parse_u8(&chars("99999999999")), None);
    assert_eq!(parse_u8(&chars("-1")), None);
    assert_eq!(parse_u8(&chars("1a")), None);
    assert_eq!(parse_u8(&chars(" 1")), None);
    assert_eq!(parse_u8(&chars("++1")), None);
}

#[test]
fn parse_u8_agrees_with_std() {
    let samples = [
        "", "0", "1", "9", "10", "99", "100", "199", "254", "255", "256", "300", "1000", "+",
        "+0", "+255", "+256", "-0", "-5", "a", "5a", "a5", "0x1", " ", "1 ", "00000000255",
        "000000000256", "٣",
    ];
    for s in samples {
        assert_eq!(parse_u8(&chars(s)), s.parse::<u8>().ok(), "input {:?}", s);
    }
    for n in 0u32..400 {
        let s = n.to_string();
        assert_eq!(parse_u8(&chars(&s)), s.parse::<u8>().ok());
    }
}

#[test]
fn split_on_spaces_matches_str_split() {
    let samples = ["", "20 1", "20  1", " 20", "20 ", "a b c", "   ", "single"];
    for s in samples {
        let expected: Vec<Vec<char>> = s.split(' ').map(|p| p.chars().collect()).collect();
        assert_eq!(split_on_spaces(s), expected, "input {:?}", s);
    }
}

#[test]
fn leaf_input_is_read_piece_by_piece() {
    assert_eq!(parse_leaf_input("20 1"), vec![20, 1]);
    assert_eq!(parse_leaf_input("x 3"), vec![0, 3]);
    assert_eq!(parse_leaf_input("1  2"), vec![1, 0, 2]);
    assert_eq!(parse_leaf_input("300 7 9"), vec![0, 7, 9]);
    assert_eq!(parse_leaf_input(""), vec![0]);
    assert_eq!(parse_leaf_input("42"), vec![42]);
}
