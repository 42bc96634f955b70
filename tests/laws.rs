use prox::base36;
use prox::codec::revvec::RevVec;
use prox::codec::Codec;
use prox::serve::{after_read, next_read, CHUNK_SIZE};
use prox::entity::{ETagKind, Entity};
use prox::etag;
use prox::gzip::parse_decimal;
use prox::host::Host;
use prox::log::{log_line, request_url, LogFields};
use prox::mime::{guess_mime_by_path, is_mime_compressible};
use prox::path::{get_entity_path, path_climbs, percent_decode};
use prox::text::decimal;
use prox::util::{as_millis, duration_as_millis};

#[test]
fn etag_numerals_round_trip() {
    for n in [0u64, 1, 91, 92, 93, 8_463, 1 << 40, u64::MAX - 1, u64::MAX] {
        assert_eq!(etag::decode(&etag::encode(n)), Some(n));
    }
    assert_eq!(etag::encode(0), "!");
    assert_eq!(etag::encode(92), "#!");
    assert_eq!(etag::encode(u64::MAX).len(), etag::MAX_CAP);
    assert_eq!(etag::decode("\""), None);
    assert_eq!(etag::decode("~~~~~~~~~~~"), None);
}

#[test]
fn etags_follow_modification_time() {
    let a = Entity::new(12, 300, 1_000, "text/html".to_string(), true);
    let b = Entity::new(12, 300, 1_000, "text/html".to_string(), true);
    let touched = Entity::new(12, 300, 2_000, "text/html".to_string(), true);
    assert_eq!(a.etag(&ETagKind::Strong).tag, b.etag(&ETagKind::Strong).tag);
    assert_ne!(a.etag(&ETagKind::Strong).tag, touched.etag(&ETagKind::Strong).tag);
    assert!(a.etag(&ETagKind::Weak).weak);
    assert!(!a.etag(&ETagKind::Strong).weak);
}

#[test]
fn percent_decoding_undoes_encoding() {
    for p in ["/a b/c.txt", "/100%/x", "/plain/path", "/semi;colon?q"] {
        let encoded: String = percent_encoding::utf8_percent_encode(p, percent_encoding::DEFAULT_ENCODE_SET).collect();
        let expected = format!("root{}", p);
        assert_eq!(get_entity_path("root", &encoded), Some(expected));
    }
    assert_eq!(get_entity_path("root", "/%41%zz"), Some("root/A%zz".to_string()));
    assert_eq!(percent_decode("/caf%C3%A9/men%C3%BC.txt"), Some("/caf\u{e9}/men\u{fc}.txt".to_string()));
    assert_eq!(percent_decode("/a%20b/%25/c"), Some("/a b/%/c".to_string()));
    assert_eq!(percent_decode("%FF"), None);
    assert!(path_climbs("/a/%2E%2E/b"));
    assert!(!path_climbs("/a/..b"));
}

#[test]
fn codec_is_big_endian() {
    let digits: Vec<char> = "0123456789abcdefghijklmnopqrstuvwxyz".chars().collect();
    let codec = Codec::new(&digits);
    assert_eq!(codec.encode(36), "10");
    assert_eq!(codec.decode("10"), Some(36));
    assert_eq!(codec.decode("0!"), None);
    assert_eq!(codec.decode(""), Some(0));
    let binary = Codec::new(&['0', '1']);
    assert_eq!(binary.encode(2), "10");
    assert_eq!(binary.encode(0), "0");
    for n in [0u64, 1, 35, 36, 1295, u64::MAX] {
        assert_eq!(codec.decode(&codec.encode(n)), Some(n));
    }
    assert_eq!(prox::codec::base36::encode(0), "0");
    assert_eq!(prox::codec::base36::encode(35), "z");
    assert_eq!(prox::codec::base36::encode(36), "10");
    assert_eq!(prox::codec::base36::encode(1295), "zz");
    assert_eq!(prox::codec::base36::encode(71), "1z");
    assert_eq!(base36::encode(71), "1z");
    assert_eq!(base36::encode(0), "0");
}

#[test]
fn decimal_numbers() {
    assert_eq!(decimal(0), "0");
    assert_eq!(decimal(1400), "1400");
    assert_eq!(decimal(u64::MAX), "18446744073709551615");
    assert_eq!(parse_decimal("1400"), Some(1400));
    assert_eq!(parse_decimal(""), None);
    assert_eq!(parse_decimal("12a"), None);
    assert_eq!(parse_decimal("18446744073709551616"), None);
}

#[test]
fn millis() {
    assert_eq!(duration_as_millis(2, 500_000_000), 2500);
    assert_eq!(as_millis(0, 999_999), 0);
}

#[test]
fn host_forms() {
    assert_eq!(Host::new("localhost".to_string(), Some(3000)).to_string(), "localhost:3000");
    assert_eq!(Host::new("example.com".to_string(), None).to_string(), "example.com");
    assert!(Host::new("Example.COM".to_string(), None).matches(&Host::new("example.com".to_string(), Some(80))));
    assert!(!Host::new("example.com".to_string(), Some(81)).matches(&Host::new("example.com".to_string(), None)));
}

#[test]
fn access_log_line() {
    let fields = LogFields {
        remote_host: "10.0.0.1".to_string(),
        remote_port: "5000".to_string(),
        date_clf: "10/Oct/2000:13:55:36 +0000".to_string(),
        date_iso8601: "2000-10-10T13:55:36.000Z".to_string(),
        method: "GET".to_string(),
        path: "/a".to_string(),
        url: request_url("/a", "b=1"),
        proto: "HTTP/1.1".to_string(),
        status: "200".to_string(),
        bytes_tx: "11".to_string(),
    };
    let line = log_line(&prox::config::default_log_format(), &fields);
    assert_eq!(line, "10.0.0.1 - - [10/Oct/2000:13:55:36 +0000] \"GET /a?b=1 HTTP/1.1\" 200 11");
    assert_eq!(log_line(":path::status", &fields), "/a:200");
    assert_eq!(request_url("/a", ""), "/a");
}

#[test]
fn mime_by_extension() {
    let r = guess_mime_by_path("/srv/www/hello.TXT");
    assert_eq!(r.mime, "text/plain; charset=utf-8");
    assert!(r.compressible);
    let r = guess_mime_by_path("/srv/www/img.png");
    assert_eq!(r.mime, "image/png");
    assert!(!r.compressible);
    assert_eq!(guess_mime_by_path("/srv/.bashrc").mime, "application/octet-stream");
    assert_eq!(guess_mime_by_path("/srv/dir.d/file").mime, "application/octet-stream");
    assert_eq!(guess_mime_by_path("archive.tar.gz").mime, "application/gzip");
    assert!(is_mime_compressible("text/html; charset=utf-8"));
    assert!(is_mime_compressible("APPLICATION/JSON"));
    assert!(!is_mime_compressible("image/png"));
    assert!(!is_mime_compressible(""));
}

#[test]
fn revvec_pushes_from_the_left() {
    let mut v: RevVec<u8> = RevVec::new();
    v.push(1);
    v.push(2);
    assert_eq!(*v.index(0), 2);
    assert_eq!(v.len(), 2);
    assert_eq!(v.into_vec(), vec![2, 1]);
    assert_eq!(RevVec::<u8>::with_capacity(4).len(), 0);
}

#[test]
fn file_read_steps() {
    assert_eq!(next_read(0, 10), Some(10));
    assert_eq!(next_read(0, 100_000), Some(CHUNK_SIZE));
    assert_eq!(next_read(10, 10), None);
    assert_eq!(after_read(0, 5, 10), Some(5));
    assert_eq!(after_read(7, 0, 10), None);
}
