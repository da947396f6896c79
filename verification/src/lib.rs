//! Decoder for RPKI manifests carried in CMS signed objects.
//!
//! A manifest lists the files of a repository publication point together with
//! their digests. This crate peels the CMS envelope and the embedded
//! certificate through an external ASN.1/X.509 library and decodes the
//! manifest's own payload — sequence number, validity window and file list —
//! from the raw DER bytes, defensively and with proved contracts.

pub mod civil;
pub mod cms;
pub mod content;
pub mod der;
pub mod manifest;
pub mod number;
pub mod text;

pub use content::{DecodeError, FileAndHash, ManifestFields};
pub use manifest::{cms_signing_time, IndexError, Manifest};
pub use number::ManifestNumber;
pub use text::hex_string;
