use invoker_manager::seconds::Seconds;

#[test]
fn zero_is_the_literal_zero() {
    assert_eq!(Seconds::zero().as_str(), "0");
}

#[test]
fn parse_keeps_the_literal_as_it_stands() {
    assert_eq!(Seconds::parse("0.10").unwrap().as_str(), "0.10");
    assert_eq!(Seconds::parse("1e-3").unwrap().as_str(), "1e-3");
    assert_eq!(Seconds::parse("+.5").unwrap().as_str(), "+.5");
    assert_eq!(Seconds::parse("NaN").unwrap().as_str(), "NaN");
}

#[test]
fn parse_accepts_the_literals_of_a_float() {
    for text in [
        "0", "0.10", "0.12", "0.09", "12", "1.", ".5", "1.5", "+1.5", "-1.5", "1e5", "1E5", "1e+5",
        "1e-5", "5.e3", ".5e3", "inf", "INF", "+inf", "-Inf", "infinity", "INFINITY", "Infinity",
        "nan", "NaN", "-nan", "0000.0000", "123456789012345678901234567890.5",
    ] {
        assert!(Seconds::parse(text).is_some(), "{:?}", text);
    }
}

#[test]
fn parse_refuses_everything_else() {
    for text in [
        "", ".", "+", "-", "e5", ".e5", "1e", "1e+", "1e-", "1e5.5", "1.2.3", "--1", "+-1", " 1",
        "1 ", "1_000", "0x10", "1f", "infinit", "infinityy", "in", "na", "nann", "١", "1e٣", "1,5",
        "abc",
    ] {
        assert!(Seconds::parse(text).is_none(), "{:?}", text);
    }
}

#[test]
fn parse_agrees_with_float_parsing_on_all_short_texts() {
    let alphabet = ['0', '7', '.', 'e', 'E', '+', '-', 'i', 'n', 'f', 'a', 'N', ' '];
    let mut texts: Vec<String> = vec![String::new()];
    let mut start = 0;
    for _ in 0..4 {
        let end = texts.len();
        for index in start..end {
            for c in alphabet {
                let mut longer = texts[index].clone();
                longer.push(c);
                texts.push(longer);
            }
        }
        start = end;
    }
    assert_eq!(texts.len(), 1 + 13 + 169 + 2197 + 28561);
    for text in texts {
        assert_eq!(Seconds::parse(&text).is_some(), text.parse::<f64>().is_ok(), "{:?}", text);
    }
}

#[test]
fn parse_agrees_with_float_parsing_on_the_special_words() {
    for word in ["inf", "infinity", "nan", "infinit", "infinityy", "nanx", "in", "infi"] {
        for mask in 0..(1u32 << word.len()) {
            let text: String = word
                .chars()
                .enumerate()
                .map(|(i, c)| if mask & (1 << i) != 0 { c.to_ascii_uppercase() } else { c })
                .collect();
            for sign in ["", "+", "-"] {
                let signed = format!("{}{}", sign, text);
                assert_eq!(
                    Seconds::parse(&signed).is_some(),
                    signed.parse::<f64>().is_ok(),
                    "{:?}",
                    signed
                );
            }
        }
    }
}

#[test]
fn clone_keeps_the_literal() {
    let time = Seconds::parse("2.5").unwrap();
    assert_eq!(time.clone(), time);
    assert_eq!(time.clone().as_str(), "2.5");
}

#[test]
fn parse_agrees_with_float_parsing_on_numbers_of_up_to_seven_signs() {
    let alphabet = ['1', '.', 'e', '+', '-'];
    let mut texts: Vec<String> = vec![String::new()];
    let mut start = 0;
    for _ in 0..7 {
        let end = texts.len();
        for index in start..end {
            for c in alphabet {
                let mut longer = texts[index].clone();
                longer.push(c);
                texts.push(longer);
            }
        }
        start = end;
    }
    for text in texts {
        assert_eq!(Seconds::parse(&text).is_some(), text.parse::<f64>().is_ok(), "{:?}", text);
    }
}
