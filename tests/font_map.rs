use fontmap::deferred::MaybeFontMap;
use fontmap::error::FontError;
use fontmap::font_map::{FontInstance, FontMap, LoadStep, SizeKey};
use std::cell::Cell;

fn size(s: f32) -> SizeKey {
    SizeKey::from_bits(s.to_bits())
}

fn be16(out: &mut Vec<u8>, v: u16) {
    out.extend_from_slice(&v.to_be_bytes());
}

fn be32(out: &mut Vec<u8>, v: u32) {
    out.extend_from_slice(&v.to_be_bytes());
}

/// The smallest TrueType file the parser accepts: `head`, `hhea` and `maxp`.
fn tiny_font() -> Vec<u8> {
    let mut head = Vec::new();
    be32(&mut head, 0x0001_0000);
    be32(&mut head, 0x0001_0000);
    be32(&mut head, 0);
    be32(&mut head, 0x5F0F_3CF5);
    be16(&mut head, 0);
    be16(&mut head, 1000);
    head.extend_from_slice(&[0u8; 16]);
    head.extend_from_slice(&[0u8; 8]);
    be16(&mut head, 0);
    be16(&mut head, 8);
    be16(&mut head, 2);
    be16(&mut head, 0);
    be16(&mut head, 0);
    assert_eq!(head.len(), 54);
    let mut hhea = Vec::new();
    be32(&mut hhea, 0x0001_0000);
    hhea.extend_from_slice(&[0u8; 30]);
    be16(&mut hhea, 1);
    assert_eq!(hhea.len(), 36);
    let mut maxp = Vec::new();
    be32(&mut maxp, 0x0000_5000);
    be16(&mut maxp, 1);

    let tables: Vec<(&[u8; 4], Vec<u8>)> = vec![(b"head", head), (b"hhea", hhea), (b"maxp", maxp)];
    let mut out = Vec::new();
    be32(&mut out, 0x0001_0000);
    be16(&mut out, tables.len() as u16);
    be16(&mut out, 0);
    be16(&mut out, 0);
    be16(&mut out, 0);
    let mut offset = 12 + 16 * tables.len();
    let mut body = Vec::new();
    for (tag, data) in &tables {
        out.extend_from_slice(&tag[..]);
        be32(&mut out, 0);
        be32(&mut out, offset as u32);
        be32(&mut out, data.len() as u32);
        body.extend_from_slice(data);
        while body.len() % 4 != 0 {
            body.push(0);
        }
        offset = 12 + 16 * tables.len() + body.len();
    }
    out.extend_from_slice(&body);
    out
}

fn instance<'a>(map: &'a FontMap, name: &str, s: f32) -> &'a FontInstance {
    match map.get_font(name, size(s)) {
        Ok(inst) => inst,
        Err(e) => panic!("no instance: {:?}", e),
    }
}

/// Runs resolution to the end, reading every file as `tiny_font`.
fn resolve_all(map: &mut FontMap) -> Vec<(String, String)> {
    let mut asked = Vec::new();
    loop {
        match map.load_fonts() {
            Ok(LoadStep::Done) => return asked,
            Ok(LoadStep::NeedFile { name, path }) => {
                assert_eq!(map.add_font_data(&name, tiny_font()), Ok(()));
                asked.push((name, path));
            }
            Err(e) => panic!("resolution failed: {:?}", e),
        }
    }
}

#[test]
fn queued_pairs_resolve_into_two_entries() {
    let mut map = FontMap::new();
    map.add_font_path("Sans", "/fonts/sans.ttf".to_string());
    map.queue_font("Sans", size(12.0), "Hello");
    map.queue_font("Sans", size(12.0), "World");
    map.queue_font("Sans", size(24.0), "Hi");
    let asked = resolve_all(&mut map);
    assert_eq!(asked, vec![("Sans".to_string(), "/fonts/sans.ttf".to_string())]);
    let twelve = instance(&map, "Sans", 12.0);
    for c in "HelloWorld".chars() {
        assert!(twelve.is_warmed(c));
    }
    assert!(!twelve.is_warmed('i'));
    assert_eq!(twelve.glyphs.len(), 7);
    let big = instance(&map, "Sans", 24.0);
    assert!(big.is_warmed('H') && big.is_warmed('i'));
    assert!(!big.is_warmed('W'));
    assert_eq!(big.size, size(24.0));
    assert_eq!(twelve.font, big.font);
    assert!(map.get_font("Sans", size(16.0)).is_err());
    assert!(map.parsed_font("Sans").is_some());
    assert!(map.parsed_font("Mono").is_none());
}

#[test]
fn same_query_gives_same_instance() {
    let mut map = FontMap::new();
    map.add_font_path("Mono", "/fonts/mono.ttf".to_string());
    map.queue_font("Mono", size(10.0), "abc");
    resolve_all(&mut map);
    let first = instance(&map, "Mono", 10.0);
    let second = instance(&map, "Mono", 10.0);
    assert!(std::ptr::eq(first, second));
    assert_eq!(first.glyphs, second.glyphs);
    assert_eq!(map.load_fonts().ok().map(|s| matches!(s, LoadStep::Done)), Some(true));
}

#[test]
fn sizes_are_keyed_by_bit_pattern() {
    let mut map = FontMap::new();
    map.add_font_path("Sans", "/fonts/sans.ttf".to_string());
    let close: f32 = 11.999999;
    assert_ne!(close.to_bits(), 12.0f32.to_bits());
    let product: f32 = 6.0 * 2.0;
    map.queue_font("Sans", size(12.0), "a");
    map.queue_font("Sans", size(close), "b");
    map.queue_font("Sans", size(product), "c");
    resolve_all(&mut map);
    let exact = instance(&map, "Sans", 12.0);
    assert!(exact.is_warmed('a') && exact.is_warmed('c') && !exact.is_warmed('b'));
    let near = instance(&map, "Sans", close);
    assert!(near.is_warmed('b') && !near.is_warmed('a'));
    assert_eq!(size(12.0).key(), 12.0f32.to_bits() as u64);
    assert_eq!(size(12.0), size(product));
    assert_ne!(size(12.0), size(close));
}

#[test]
fn resolving_again_extends_and_keeps_entries() {
    let mut map = FontMap::new();
    map.add_font_path("Sans", "/fonts/sans.ttf".to_string());
    map.queue_font("Sans", size(12.0), "ab");
    assert_eq!(resolve_all(&mut map).len(), 1);
    map.queue_font("Sans", size(12.0), "xy");
    map.queue_font("Sans", size(30.0), "q");
    // The font is parsed already, so no file is asked for again.
    assert_eq!(resolve_all(&mut map).len(), 0);
    let twelve = instance(&map, "Sans", 12.0);
    for c in "abxy".chars() {
        assert!(twelve.is_warmed(c));
    }
    assert!(instance(&map, "Sans", 30.0).is_warmed('q'));
}

#[test]
fn override_path_is_the_one_read() {
    let mut map = FontMap::new();
    map.add_font_path("Serif", "/old/serif.ttf".to_string());
    map.add_font_path("Serif", "/new/serif.ttf".to_string());
    map.queue_font("Serif", size(9.0), "z");
    match map.load_fonts() {
        Ok(LoadStep::NeedFile { name, path }) => {
            assert_eq!(name, "Serif");
            assert_eq!(path, "/new/serif.ttf");
        }
        _ => panic!("expected a file request"),
    }
}

#[test]
fn unparsable_file_is_rejected_and_still_needed() {
    let mut map = FontMap::new();
    map.add_font_path("Sans", "/fonts/sans.ttf".to_string());
    map.queue_font("Sans", size(12.0), "x");
    assert!(matches!(map.load_fonts(), Ok(LoadStep::NeedFile { .. })));
    assert_eq!(map.add_font_data("Sans", vec![1, 2, 3]), Err(FontError::ParseFailed));
    assert!(matches!(map.load_fonts(), Ok(LoadStep::NeedFile { .. })));
    assert_eq!(map.add_font_data("Sans", tiny_font()), Ok(()));
    // Bytes for a font already parsed are ignored.
    assert_eq!(map.add_font_data("Sans", vec![9]), Ok(()));
    assert!(matches!(map.load_fonts(), Ok(LoadStep::Done)));
}

#[test]
fn unqueued_pair_is_not_loaded() {
    let map = FontMap::new();
    assert!(matches!(map.get_font("Sans", size(16.0)), Err(FontError::NotLoaded)));
}

#[test]
fn nothing_queued_resolves_at_once() {
    let mut map = FontMap::new();
    assert!(matches!(map.load_fonts(), Ok(LoadStep::Done)));
}

#[test]
fn deferred_map_joins_once() {
    let joins = Cell::new(0);
    let mut handle: MaybeFontMap<u32, u32> = MaybeFontMap::launch(7);
    assert_eq!(handle.unwrap(), Err(FontError::NotLoaded));
    for _ in 0..4 {
        let r = handle.resolve(|w| {
            joins.set(joins.get() + 1);
            Ok(w * 2)
        });
        assert_eq!(r, Ok(()));
    }
    assert_eq!(joins.get(), 1);
    assert_eq!(handle.unwrap(), Ok(&14));
}

#[test]
fn deferred_failure_propagates() {
    let joins = Cell::new(0);
    let mut handle: MaybeFontMap<u32, u32> = MaybeFontMap::launch(1);
    let first = handle.resolve(|_| {
        joins.set(joins.get() + 1);
        Err(FontError::ParseFailed)
    });
    assert_eq!(first, Err(FontError::ParseFailed));
    let again = handle.resolve(|w| {
        joins.set(joins.get() + 1);
        Ok(w)
    });
    assert_eq!(again, Err(FontError::InvalidState));
    assert_eq!(joins.get(), 1);
    assert_eq!(handle.unwrap(), Err(FontError::InvalidState));
}
