use regex::Regex;
use sitemap_xml_writer::Lastmod;

const DATE: &str = r#"\A-?([1-9][0-9]{3,}|0[0-9]{3})-(0[1-9]|1[0-2])-(0[1-9]|[12][0-9]|3[01])(Z|(\+|-)((0[0-9]|1[0-3]):[0-5][0-9]|14:00))?\z"#;

const DATE_TIME: &str = r#"\A-?([1-9][0-9]{3,}|0[0-9]{3})-(0[1-9]|1[0-2])-(0[1-9]|[12][0-9]|3[01])T(([01][0-9]|2[0-3]):[0-5][0-9]:[0-5][0-9](\.[0-9]+)?|(24:00:00(\.0+)?))(Z|(\+|-)((0[0-9]|1[0-3]):[0-5][0-9]|14:00))?\z"#;

const SEEDS: [&str; 14] = [
    "2005-01-01",
    "-2005-12-31",
    "0005-10-20Z",
    "12005-02-29+13:59",
    "2005-01-01-14:00",
    "2005-01-01T00:00:00",
    "2005-01-01T23:59:59.9",
    "2005-01-01T19:00:00.25Z",
    "2005-01-01T24:00:00",
    "2005-01-01T24:00:00.00+09:00",
    "2004-12-23T18:00:15.123456789+09:00",
    "-10000-11-30T09:09:09-00:30",
    "1999-09-19T13:13:13+14:00",
    "2005-01-01T10:20:30.0Z",
];

const ALPHABET: &str = "0123456789-+:.TZ tz,/";

/// Every text that one edit makes of a seed: a character replaced, removed
/// or put in.
fn variants(seed: &str) -> Vec<String> {
    let chars: Vec<char> = seed.chars().collect();
    let mut all = vec![seed.to_string()];
    for i in 0..=chars.len() {
        for c in ALPHABET.chars() {
            let mut put_in = chars.clone();
            put_in.insert(i, c);
            all.push(put_in.into_iter().collect());
            if i < chars.len() {
                let mut replaced = chars.clone();
                replaced[i] = c;
                all.push(replaced.into_iter().collect());
            }
        }
        if i < chars.len() {
            let mut removed = chars.clone();
            removed.remove(i);
            all.push(removed.into_iter().collect());
        }
    }
    all
}

#[test]
fn lastmod_agrees_with_the_patterns_of_xml_schema() {
    let date = Regex::new(DATE).unwrap();
    let date_time = Regex::new(DATE_TIME).unwrap();
    let mut accepted = 0;
    let mut refused = 0;
    for seed in SEEDS {
        for once in variants(seed) {
            let mut texts = vec![once.clone()];
            if seed.len() <= 20 {
                texts.extend(variants(&once));
            }
            for text in texts {
                let expected = date.is_match(&text) || date_time.is_match(&text);
                let got = Lastmod::try_from(text.as_str());
                assert_eq!(got.is_ok(), expected, "{:?}", text);
                if let Ok(lastmod) = got {
                    assert_eq!(lastmod.into_inner(), text);
                    accepted += 1;
                } else {
                    refused += 1;
                }
            }
        }
    }
    assert!(accepted > 1000);
    assert!(refused > 1000);
}

/// Every text of up to `len` characters of the alphabet.
fn texts(alphabet: &str, len: usize) -> Vec<String> {
    let mut all = vec![String::new()];
    let mut last = vec![String::new()];
    for _ in 0..len {
        let mut next = Vec::new();
        for text in &last {
            for c in alphabet.chars() {
                next.push(format!("{}{}", text, c));
            }
        }
        all.extend(next.iter().cloned());
        last = next;
    }
    all
}

#[test]
fn priority_agrees_with_floating_point_on_short_decimals() {
    let mut accepted = 0;
    let mut refused = 0;
    for text in texts("0129.+- ", 5) {
        let expected = match text.parse::<f64>() {
            Ok(value) => (0.0..=1.0).contains(&value),
            Err(_) => false,
        };
        let got = sitemap_xml_writer::Priority::try_from(text.as_str());
        assert_eq!(got.is_ok(), expected, "{:?}", text);
        if let Ok(priority) = got {
            assert_eq!(priority.into_inner(), text);
            accepted += 1;
        } else {
            refused += 1;
        }
    }
    assert!(accepted > 100);
    assert!(refused > 10_000);
}
