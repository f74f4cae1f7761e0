use ruvex::SemVer;

const PRECEDENCE_STRINGS: [&str; 24] = [
    "0.1.0-alpha",
    "0.1.0-alpha.1",
    "0.1.0-alpha.beta",
    "0.1.0-beta",
    "0.1.0-beta.2",
    "0.1.0-beta.11",
    "0.1.0-rc.1",
    "0.1.0",
    "0.1.1-alpha",
    "0.1.1-alpha.1",
    "0.1.1-alpha.beta",
    "0.1.1-beta",
    "0.1.1-beta.2",
    "0.1.1-beta.11",
    "0.1.1-rc.1",
    "0.1.1",
    "1.0.0-alpha",
    "1.0.0-alpha.1",
    "1.0.0-alpha.beta",
    "1.0.0-beta",
    "1.0.0-beta.2",
    "1.0.0-beta.11",
    "1.0.0-rc.1",
    "1.0.0",
];

fn parsed() -> Vec<SemVer> {
    PRECEDENCE_STRINGS
        .into_iter()
        .map(|x| x.parse::<SemVer>().unwrap())
        .collect::<Vec<SemVer>>()
}

fn max_of(values: Vec<SemVer>) -> Option<SemVer> {
    let mut best: Option<SemVer> = None;
    for v in values {
        best = match best {
            None => Some(v),
            Some(m) => {
                if v >= m {
                    Some(v)
                } else {
                    Some(m)
                }
            }
        };
    }
    best
}

fn min_of(values: Vec<SemVer>) -> Option<SemVer> {
    let mut best: Option<SemVer> = None;
    for v in values {
        best = match best {
            None => Some(v),
            Some(m) => {
                if v < m {
                    Some(v)
                } else {
                    Some(m)
                }
            }
        };
    }
    best
}

#[test]
fn max() {
    assert_eq!("1.0.0".parse::<SemVer>().unwrap(), max_of(parsed()).unwrap());
}

#[test]
fn min() {
    assert_eq!(
        "0.1.0-alpha".parse::<SemVer>().unwrap(),
        min_of(parsed()).unwrap()
    );
}

#[test]
fn order() {
    let basic = parsed();
    let mut rev = basic.clone();
    rev.reverse();
    assert_ne!(basic, rev);
    rev.sort_by(|a, b| a.partial_cmp(b).unwrap());
    assert_eq!(basic, rev);
    let will_slice = rev.iter().map(|x| x.format()).collect::<Vec<String>>();
    assert_eq!(PRECEDENCE_STRINGS, will_slice.as_slice());
}

#[test]
fn precedence_ladder() {
    let strings = PRECEDENCE_STRINGS;
    for i in 0..strings.len() - 1 {
        let a = strings[i].parse::<SemVer>().unwrap();
        let b = strings[i + 1].parse::<SemVer>().unwrap();
        assert!(a < b, "{} should precede {}", strings[i], strings[i + 1]);
        assert!(b > a);
    }
}

#[test]
fn round_trip_exact() {
    let samples = [
        "0.0.0",
        "1.2.3",
        "10.20.30",
        "1.0.0-alpha",
        "1.0.0-alpha.1",
        "1.0.0-0.3.7",
        "1.0.0-x-y-z.--",
        "1.0.0-alpha+001",
        "1.0.0+20130313144700",
        "1.0.0-beta+exp.sha.5114f85",
        "340282366920938463463374607431768211455.0.0",
    ];
    for s in samples {
        let v = s.parse::<SemVer>().unwrap();
        assert_eq!(v.format(), s);
    }
}

#[test]
fn rejected_strings() {
    let samples = [
        "",
        "1",
        "1.2",
        "1.2.3.4",
        "01.2.3",
        "1.02.3",
        "1.2.03",
        "1.2.3-",
        "1.2.3-01",
        "1.2.3-alpha..1",
        "1.2.3+",
        "1.2.3+a..b",
        "1.2.3-al pha",
        "v1.2.3",
        "1.2.3 ",
        "340282366920938463463374607431768211456.0.0",
    ];
    for s in samples {
        let r = s.parse::<SemVer>();
        assert!(r.is_err(), "{:?} should be rejected", s);
        assert_eq!(r.unwrap_err().text, s);
    }
}

#[test]
fn build_metadata_order_irrelevant() {
    let a = "1.0.0+001".parse::<SemVer>().unwrap();
    let b = "1.0.0+002".parse::<SemVer>().unwrap();
    assert_eq!(
        a.partial_cmp(&b).unwrap(),
        std::cmp::Ordering::Equal
    );
    assert!(a.format() != b.format());
    assert!(a != b);
}

#[test]
fn numeric_below_alphanumeric() {
    let a = "1.0.0-9".parse::<SemVer>().unwrap();
    let b = "1.0.0-10a".parse::<SemVer>().unwrap();
    assert!(a < b);
    let c = "1.0.0-10".parse::<SemVer>().unwrap();
    assert!(a < c);
}

#[test]
fn new_keeps_components() {
    let v = SemVer::new(1, 2, 3, Some("rc.1".to_owned()), Some("b7".to_owned()));
    assert_eq!(v.major, 1);
    assert_eq!(v.minor, 2);
    assert_eq!(v.patch, 3);
    assert_eq!(v.format(), "1.2.3-rc.1+b7");
}
