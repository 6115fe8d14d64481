//! Parsing compared with the same rules written with the standard library's
//! string functions, over many generated inputs.
use std::collections::HashMap;

use httpress::config::{parse_duration, parse_headers};
use httpress::time::Duration;
use httpress::Error;

fn std_parse_duration(s: &str) -> Result<std::time::Duration, String> {
    let s = s.trim();
    if let Some(ms) = s.strip_suffix("ms") {
        return ms
            .parse::<u64>()
            .map(std::time::Duration::from_millis)
            .map_err(|_| s.to_string());
    }
    if let Some(secs) = s.strip_suffix('s') {
        return secs
            .parse::<u64>()
            .map(std::time::Duration::from_secs)
            .map_err(|_| s.to_string());
    }
    if let Some(mins) = s.strip_suffix('m') {
        return mins
            .parse::<u64>()
            .map(|m| std::time::Duration::from_secs(m * 60))
            .map_err(|_| s.to_string());
    }
    s.parse::<u64>()
        .map(std::time::Duration::from_secs)
        .map_err(|_| s.to_string())
}

fn duration_inputs() -> Vec<String> {
    let cores = [
        "", "0", "7", "42", "+5", "-5", "+", "-", "1.5", "1_000", "007", "99999999999999999999",
        "18446744073709551615", "18446744073709551616", "abc", "１２", "5 ",
    ];
    let suffixes = ["", "s", "ms", "m", "sm", "mss", "S", "MS", "h", " s", "ms "];
    let pads = ["", " ", "\t", "\n", "\u{a0}", "\u{3000}", "\u{2003}", "\u{200b}", "\u{85}"];
    let mut v = Vec::new();
    for core in cores {
        for suffix in suffixes {
            for lead in pads {
                for trail in ["", " ", "\u{2029}", "\u{feff}"] {
                    v.push(format!("{}{}{}{}", lead, core, suffix, trail));
                }
            }
        }
    }
    v
}

#[test]
fn parse_duration_agrees_with_std_string_functions() {
    let mut checked = 0;
    for input in duration_inputs() {
        if httpress::config::duration_minutes_overflow(&input) {
            continue;
        }
        let ours = parse_duration(&input);
        match std_parse_duration(&input) {
            Ok(d) => assert_eq!(
                ours.map(|x| x.as_nanos()),
                Ok(d.as_nanos()),
                "input {:?}",
                input
            ),
            Err(t) => assert_eq!(ours, Err(Error::InvalidDuration(t)), "input {:?}", input),
        }
        checked += 1;
    }
    assert!(checked > 5000);
    assert_eq!(parse_duration("1m"), Ok(Duration::from_secs(60)));
}

fn std_parse_headers(headers: &[String]) -> Result<HashMap<String, String>, String> {
    let mut map = HashMap::new();
    for h in headers {
        let (key, value) = h.split_once(':').ok_or_else(|| h.clone())?;
        map.insert(key.trim().to_string(), value.trim().to_string());
    }
    Ok(map)
}

#[test]
fn parse_headers_agrees_with_std_string_functions() {
    let pieces = [
        "A: 1",
        "a:1",
        " B :  two words ",
        "C:",
        ":empty name",
        "D: x:y:z",
        "no colon",
        "\u{3000}E\u{3000}:\u{a0}é\u{a0}",
        "A: again",
        "",
    ];
    for i in 0..pieces.len() {
        for j in 0..pieces.len() {
            for k in 0..pieces.len() {
                let input: Vec<String> =
                    [pieces[i], pieces[j], pieces[k]].iter().map(|s| s.to_string()).collect();
                match (parse_headers(&input), std_parse_headers(&input)) {
                    (Ok(v), Ok(m)) => {
                        assert_eq!(v.len(), m.len(), "input {:?}", input);
                        for (key, value) in &v {
                            assert_eq!(m.get(key), Some(value), "input {:?}", input);
                        }
                    }
                    (Err(e), Err(h)) => assert_eq!(e, Error::InvalidHeader(h)),
                    (ours, theirs) => panic!("{:?} vs {:?} for {:?}", ours, theirs, input),
                }
            }
        }
    }
}
