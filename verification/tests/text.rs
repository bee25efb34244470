use rayshot::text::{lines, push_decimal, push_padded, same, split, split_once, trim};

const SAMPLES: [&str; 16] = [
    "",
    " ",
    "a",
    " a b ",
    "\u{a0}x\u{3000}",
    "a,b,,c",
    ",",
    "a\r\nb\n",
    "\n",
    "a\n\nb",
    "a\r",
    "a\r\r\n\r",
    "schema key value",
    "\u{1680}\u{2028}\u{205f}é\u{202f}\u{85}\t\u{b}",
    "\u{200b}zero width\u{200b}",
    "x\u{2000}",
];

#[test]
fn trim_agrees_with_std() {
    for s in SAMPLES {
        assert_eq!(trim(s), s.trim());
        assert_eq!(trim(&trim(s)), trim(s));
    }
}

#[test]
fn split_agrees_with_std() {
    for s in SAMPLES {
        for sep in [',', ' ', '\n'] {
            let parts = split(s, sep);
            assert_eq!(parts, s.split(sep).map(String::from).collect::<Vec<_>>());
            assert_eq!(parts.join(&sep.to_string()), s);
        }
    }
}

#[test]
fn split_once_agrees_with_std() {
    for s in SAMPLES {
        let expected = s.split_once(' ').map(|(a, b)| (a.to_string(), b.to_string()));
        assert_eq!(split_once(s, ' '), expected);
    }
}

#[test]
fn lines_agree_with_std() {
    for s in SAMPLES {
        assert_eq!(lines(s), s.lines().map(String::from).collect::<Vec<_>>());
    }
}

#[test]
fn joined_parts_split_again() {
    let parts = vec!["a".to_string(), String::new(), "b c".to_string()];
    assert_eq!(split(&parts.join(","), ','), parts);
}

#[test]
fn numbers_agree_with_std() {
    for n in [0u128, 9, 10, 255, 1_000_000, u64::MAX as u128, u128::MAX] {
        let mut s = "n".to_string();
        push_decimal(&mut s, n);
        assert_eq!(s, format!("n{n}"));
    }
    for n in [0i32, 5, -5, 42, -42, 1234, i32::MAX, i32::MIN] {
        let (mut a, mut b, mut d) = (String::new(), String::new(), String::new());
        push_padded(&mut a, n, 0);
        push_padded(&mut b, n, 2);
        push_padded(&mut d, n, 4);
        let mut wide = String::new();
        push_padded(&mut wide, n, 100);
        assert_eq!(wide, format!("{n:0100}"));
        assert_eq!((a, b, d), (format!("{n}"), format!("{n:02}"), format!("{n:04}")));
    }
}

#[test]
fn same_compares_contents() {
    assert!(same("true", "true"));
    assert!(!same("true", "True"));
    assert!(!same("", "a"));
}
