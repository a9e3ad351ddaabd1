//! Integrity checking for virtual-appliance archives.
//!
//! An archive carries a manifest, a text entry whose path ends in `.mf` and
//! whose lines declare a checksum for each file: `SHA1(name)= hexdigest`.
//! The manifest is parsed into records ([`manifest`]), every entry that a
//! record names is digested ([`digest`]), and the digest is compared with
//! the checksum that the record declares ([`verify`]).
//!
//! The library reads no archive itself. A caller that reads the archive as
//! a stream asks [`verify::is_manifest_path`] and
//! [`manifest::Manifest::lists`] what to read, feeds an
//! [`digest::EntryDigest`] chunk by chunk, and hands the digest to
//! [`manifest::Manifest::check_entry`]. A caller that has the entries at
//! hand calls [`verify::verify_archive`].

pub mod digest;
pub mod manifest;
pub mod roundtrip;
pub mod text;
pub mod verify;
