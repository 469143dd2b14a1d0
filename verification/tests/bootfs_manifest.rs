//! Boot filesystem parsing and service-manifest validation.

use rustcore::bootfs::{BootfsIter, BootfsView, CapabilityList, ManifestError, parse_service_line};
use rustcore::bootproto::MemoryRange;

fn image(entries: &[(&str, &[u8])]) -> Vec<u8> {
    let mut d = Vec::new();
    d.extend_from_slice(b"RCFS");
    d.extend_from_slice(&1u16.to_le_bytes());
    d.extend_from_slice(&(entries.len() as u16).to_le_bytes());
    for (name, data) in entries {
        d.extend_from_slice(&(name.len() as u16).to_le_bytes());
        d.extend_from_slice(name.as_bytes());
        d.extend_from_slice(&(data.len() as u32).to_le_bytes());
        d.extend_from_slice(data);
    }
    d
}

fn view_of(data: Vec<u8>) -> BootfsView {
    let range = MemoryRange { base: 0x10000, length: data.len() as u64 };
    BootfsView::from_range(range, data)
}

#[test]
fn iterates_entries_in_order() {
    let data = image(&[("a.bin", b"AA"), ("b.bin", b"BBB")]);
    let mut iter = BootfsIter::new(&data).unwrap();
    let (name, payload) = iter.next().unwrap();
    assert_eq!(name, b"a.bin".to_vec());
    assert_eq!(payload, b"AA".to_vec());
    let (name, payload) = iter.next().unwrap();
    assert_eq!(name, b"b.bin".to_vec());
    assert_eq!(payload, b"BBB".to_vec());
    assert!(iter.next().is_none());
}

#[test]
fn rejects_bad_magic_and_version() {
    assert!(BootfsIter::new(b"RCFX\x01\x00\x00\x00").is_none());
    assert!(BootfsIter::new(b"RCFS\x02\x00\x00\x00").is_none());
    assert!(BootfsIter::new(b"RCF").is_none());
}

#[test]
fn truncated_entry_stops_iteration() {
    // declares 40 data bytes but carries only 2
    let mut d = Vec::new();
    d.extend_from_slice(b"RCFS");
    d.extend_from_slice(&1u16.to_le_bytes());
    d.extend_from_slice(&1u16.to_le_bytes());
    d.extend_from_slice(&5u16.to_le_bytes());
    d.extend_from_slice(b"a.bin");
    d.extend_from_slice(&40u32.to_le_bytes());
    d.extend_from_slice(b"xy");
    let mut iter = BootfsIter::new(&d).unwrap();
    assert!(iter.next().is_none());
}

#[test]
fn find_entry_returns_first_match() {
    let data = image(&[("one", b"1"), ("two", b"2")]);
    let view = view_of(data);
    assert_eq!(view.find_entry("two").unwrap(), b"2".to_vec());
    assert!(view.find_entry("three").is_none());
    assert!(!view.is_empty());
    assert_eq!(view.base(), 0x10000);
}

#[test]
fn manifest_round_trip() {
    let manifest = b"# services\n\nservice:init:init.bin:main\nservice:net:net.bin:start:cap1,cap2\n";
    let data = image(&[("services.manifest", manifest), ("init.bin", b"I"), ("net.bin", b"N")]);
    let view = view_of(data);
    let summary = view.validate_manifest();
    assert_eq!(summary.error, None);
    assert_eq!(summary.services, 2);
}

#[test]
fn manifest_corruption() {
    let data = image(&[("services.manifest", b"service:foo:missing.bin:main")]);
    let view = view_of(data);
    let summary = view.validate_manifest();
    assert_eq!(summary.services, 0);
    assert_eq!(summary.error, Some(ManifestError::MissingArtifact));
}

#[test]
fn manifest_error_variants() {
    // no manifest entry at all
    let view = view_of(image(&[("other", b"x")]));
    assert_eq!(view.validate_manifest().error, Some(ManifestError::MissingManifest));

    // not UTF-8
    let view = view_of(image(&[("services.manifest", &[0xFF, 0xFE])]));
    assert_eq!(view.validate_manifest().error, Some(ManifestError::Utf8));

    // wrong prefix
    let view = view_of(image(&[("services.manifest", b"daemon:foo:a:b")]));
    assert_eq!(view.validate_manifest().error, Some(ManifestError::InvalidFormat));

    // too few fields
    let view = view_of(image(&[("services.manifest", b"service:foo:a")]));
    assert_eq!(view.validate_manifest().error, Some(ManifestError::InvalidFormat));

    // too many fields
    let view = view_of(image(&[("services.manifest", b"service:a:b:c:d:e")]));
    assert_eq!(view.validate_manifest().error, Some(ManifestError::InvalidFormat));

    // empty field
    let view = view_of(image(&[("services.manifest", b"service::a:b")]));
    assert_eq!(view.validate_manifest().error, Some(ManifestError::InvalidFormat));

    // no services at all
    let view = view_of(image(&[("services.manifest", b"# nothing here\n")]));
    assert_eq!(view.validate_manifest().error, Some(ManifestError::Empty));

    // the empty view has no manifest
    let empty = BootfsView::empty();
    assert_eq!(empty.validate_manifest().error, Some(ManifestError::MissingManifest));
}

#[test]
fn parses_service_line_fields() {
    let desc = parse_service_line(b"service:init: init.bin :main:net,disk").unwrap();
    assert_eq!(desc.name, b"init".to_vec());
    assert_eq!(desc.artifact, b"init.bin".to_vec());
    assert_eq!(desc.entry, b"main".to_vec());
    let mut caps = desc.capabilities.iter();
    assert_eq!(caps.next().unwrap(), b"net".to_vec());
    assert_eq!(caps.next().unwrap(), b"disk".to_vec());
    assert!(caps.next().is_none());
}

#[test]
fn capability_list_skips_empty_segments() {
    let list = CapabilityList::from_str(" a ,, b ,");
    let mut iter = list.iter();
    assert_eq!(iter.next().unwrap(), b"a".to_vec());
    assert_eq!(iter.next().unwrap(), b"b".to_vec());
    assert!(iter.next().is_none());
    let empty = CapabilityList::from_str("");
    assert!(empty.iter().next().is_none());
}

#[test]
fn bootstrap_reports_manifest_and_message() {
    let manifest = b"service:init:init.bin:main\n";
    let data = image(&[("services.manifest", manifest), ("init.bin", b"I")]);
    let view = view_of(data);
    let mut channel = rustcore::channel::Channel::new();
    channel.send(b"BOOT").unwrap();
    let outcome = rustcore::init::bootstrap(&mut channel, &view);
    assert_eq!(outcome.manifest.services, 1);
    assert_eq!(outcome.manifest.error, None);
    assert_eq!(outcome.last_message_len, 4);
    assert!(outcome.receive_error.is_none());

    let outcome2 = rustcore::init::bootstrap(&mut channel, &view);
    assert_eq!(outcome2.last_message_len, 0);
    assert!(outcome2.receive_error.is_some());
}
