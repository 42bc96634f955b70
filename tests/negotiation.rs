use prox::accept::{items_from_renderings, parse_accept_encoding};
use prox::negotiate::{negotiate_encoding, Coding, QualityItem};

fn encoding(raw: &str) -> Option<Coding> {
    negotiate_encoding(parse_accept_encoding(raw).as_ref())
}

#[test]
fn negotiate_test_negotiate_encoding() {
    assert_eq!(encoding("compress, gzip"), Some(Coding::Gzip));
    assert_eq!(encoding("compress;q=0.5, gzip;q=1.0"), Some(Coding::Gzip));
    assert_eq!(encoding("gzip;q=1.0, identity; q=0.5, *;q=0"), Some(Coding::Gzip));
    assert_eq!(encoding("identity;q=0"), None);
    assert_eq!(encoding("*;q=0"), None);
    // Identity keeps its default quality of 1, above gzip's 0.001.
    assert_eq!(encoding("gzip;q=0.001"), None);
    assert_eq!(encoding("gzip;q=0"), None);
    assert_eq!(encoding("*"), Some(Coding::Gzip));
    assert_eq!(encoding("gzip;q=0, *"), None);
    assert_eq!(encoding("identity;q=0, *"), Some(Coding::Gzip));
    assert_eq!(encoding("identity;q=0.5, gzip;q=1.0"), Some(Coding::Gzip));
    assert_eq!(encoding("identity;q=1.0, gzip;q=0.5"), None);
    assert_eq!(encoding("*;q=0"), None);
}

#[test]
fn negotiation_test_negotiate_encoding() {
    assert_eq!(encoding("compress, gzip"), Some(Coding::Gzip));
    assert_eq!(encoding("compress;q=0.5, gzip;q=1.0"), Some(Coding::Gzip));
    assert_eq!(encoding("gzip;q=1.0, identity; q=0.5, *;q=0"), Some(Coding::Gzip));
    assert_eq!(encoding("identity;q=0"), None);
    assert_eq!(encoding("*;q=0"), None);
}

#[test]
fn absent_accept_encoding_picks_nothing() {
    assert_eq!(negotiate_encoding(None), None);
}

#[test]
fn accept_encoding_items_and_qualities() {
    let items = parse_accept_encoding("gzip;q=1.0, identity; q=0.5, *;q=0, br");
    assert_eq!(
        items,
        Some(vec![
            QualityItem { item: Coding::Gzip, quality: 1000 },
            QualityItem { item: Coding::Identity, quality: 500 },
            QualityItem { item: Coding::Star, quality: 0 },
            QualityItem { item: Coding::Other, quality: 1000 },
        ])
    );
}

#[test]
fn accept_encoding_drops_malformed_items() {
    assert_eq!(parse_accept_encoding("gzip;q=2, , identity;q=0.25"), Some(vec![
        QualityItem { item: Coding::Identity, quality: 250 },
    ]));
    assert_eq!(parse_accept_encoding("gzip;q=1.000"), Some(vec![QualityItem { item: Coding::Gzip, quality: 1000 }]));
    assert_eq!(parse_accept_encoding("gzip;q=0.001"), Some(vec![QualityItem { item: Coding::Gzip, quality: 1 }]));
}

#[test]
fn later_quality_overrides_earlier() {
    assert_eq!(encoding("gzip;q=0, gzip"), Some(Coding::Gzip));
    assert_eq!(encoding("gzip, gzip;q=0"), None);
}

#[test]
fn renderings_read_back() {
    let v = vec!["gzip; q=0.5".to_string(), "*; q=0".to_string(), "identity".to_string(), "x;level=1; q=0.25".to_string()];
    assert_eq!(
        items_from_renderings(&v),
        vec![
            QualityItem { item: Coding::Gzip, quality: 500 },
            QualityItem { item: Coding::Star, quality: 0 },
            QualityItem { item: Coding::Identity, quality: 1000 },
            QualityItem { item: Coding::Other, quality: 250 },
        ]
    );
}
