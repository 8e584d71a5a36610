use std::mem;

use js_source_scopes::lookup::ScopeLookupResult;
use js_source_scopes::smcache::lookup::Error;
use js_source_scopes::smcache::lookup::SmCache;
use js_source_scopes::smcache::raw::align_to_eight;
use js_source_scopes::smcache::raw::Header;
use js_source_scopes::smcache::raw::MinifiedSourcePosition;
use js_source_scopes::smcache::raw::OriginalSourceLocation;
use js_source_scopes::smcache::writer::insert_string;
use js_source_scopes::smcache::writer::SmCacheWriter;
use js_source_scopes::source::SourcePosition;

#[test]
fn test_sizeof() {
    assert_eq!(mem::size_of::<Header>(), 32);
    assert_eq!(mem::align_of::<Header>(), 4);

    assert_eq!(mem::size_of::<MinifiedSourcePosition>(), 8);
    assert_eq!(mem::align_of::<MinifiedSourcePosition>(), 4);

    assert_eq!(mem::size_of::<OriginalSourceLocation>(), 12);
    assert_eq!(mem::align_of::<OriginalSourceLocation>(), 4);
}

#[test]
fn align_to_eight_rounds_up() {
    assert_eq!(align_to_eight(0), 0);
    assert_eq!(align_to_eight(5), 3);
    assert_eq!(align_to_eight(8), 0);
    assert_eq!(align_to_eight(12), 4);
    assert_eq!(align_to_eight(16), 0);
}

#[test]
fn parse_rejects_short_buffers() {
    assert_eq!(SmCache::parse(&[]).unwrap_err(), Error::Header);
    assert_eq!(SmCache::parse(&[0u8; 16]).unwrap_err(), Error::Header);
}

#[test]
fn parse_rejects_wrong_magic() {
    let mut buf = [0u8; 32];
    buf[0] = 0xFF;
    assert_eq!(SmCache::parse(&buf).unwrap_err(), Error::WrongFormat);
}

#[test]
fn parse_rejects_flipped_magic() {
    let mut buf = [0u8; 32];
    buf[..4].copy_from_slice(b"ACMS");
    assert_eq!(SmCache::parse(&buf).unwrap_err(), Error::WrongEndianness);
}

#[test]
fn parse_rejects_wrong_version() {
    let mut buf = [0u8; 32];
    buf[..4].copy_from_slice(b"SMCA");
    buf[4] = 9;
    assert_eq!(SmCache::parse(&buf).unwrap_err(), Error::WrongVersion);
}

#[test]
fn parse_rejects_truncated_records() {
    let mut buf = [0u8; 32];
    buf[..4].copy_from_slice(b"SMCA");
    buf[4] = 1;
    buf[8] = 3;
    assert_eq!(SmCache::parse(&buf).unwrap_err(), Error::SourcePositions);
}

#[test]
fn insert_string_interns() {
    let mut bytes = Vec::new();
    let mut strings = Vec::new();
    let a = insert_string(&mut bytes, &mut strings, "hello");
    let b = insert_string(&mut bytes, &mut strings, "world");
    let a2 = insert_string(&mut bytes, &mut strings, "hello");
    assert_eq!(a, a2);
    assert_ne!(a, b);
    assert_eq!(insert_string(&mut bytes, &mut strings, ""), u32::MAX);
    // length-prefixed contents
    assert_eq!(&bytes[..6], &[5, b'h', b'e', b'l', b'l', b'o']);
}

const MINIFIED: &str = "function t(){}";
const MAP: &str =
    r#"{"version":3,"sources":["original.js"],"names":["abcd"],"mappings":"SAAAA"}"#;

#[test]
fn writer_roundtrips_through_parse() {
    let writer = SmCacheWriter::new(MINIFIED, MAP).unwrap();
    let buf = writer.serialize();
    let cache = SmCache::parse(&buf).unwrap();

    let loc = cache.lookup(SourcePosition::new(0, 9)).unwrap();
    assert_eq!(loc.file.as_deref(), Some("original.js"));
    assert_eq!(loc.line, 0);
    assert_eq!(loc.scope, ScopeLookupResult::NamedScope("abcd".into()));
}

#[test]
fn writer_fails_on_invalid_map() {
    assert!(SmCacheWriter::new(MINIFIED, "not a sourcemap").is_err());
}
