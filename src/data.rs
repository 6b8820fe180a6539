//! The mutation data file of a root, plain or gzip-compressed.

use vstd::prelude::*;
use vstd::slice::slice_to_vec;

verus! {

/// What decoding the gzip data `b` gives: `None` where `b` is not gzip data.
pub uninterp spec fn gunzip_of(b: Seq<u8>) -> Option<Seq<u8>>;

/// Relies on flate2's `bufread::GzDecoder` read to its end: it decodes the
/// first gzip member of `b`, or fails where `b` is not valid gzip data.
#[verifier::external_body]
fn gunzip(b: &[u8]) -> (r: Option<Vec<u8>>)
    ensures
        match r {
            Some(v) => gunzip_of(b@) == Some(v@),
            None => gunzip_of(b@) is None,
        },
{
    let mut decoder = flate2::bufread::GzDecoder::new(b);
    let mut out: Vec<u8> = Vec::new();
    match std::io::Read::read_to_end(&mut decoder, &mut out) {
        Ok(_) => Some(out),
        Err(_) => None,
    }
}

/// How a root's mutation data is stored.
#[derive(Clone, Copy, Debug, PartialEq, Eq, Structural)]
pub enum DataFormat {
    /// `<root>.vcf`, plain text.
    Plain,
    /// `<root>.vcf.gz`, gzip-compressed.
    Gzip,
}

impl DataFormat {
    /// The extension of the data file beside a root.
    pub fn extension(&self) -> (r: &'static str)
        ensures
            r@ == (match self {
                DataFormat::Plain => "vcf"@,
                DataFormat::Gzip => "vcf.gz"@,
            }),
    {
        match self {
            DataFormat::Plain => "vcf",
            DataFormat::Gzip => "vcf.gz",
        }
    }
}

/// The mutation data that the raw file content `raw` holds: `raw` itself
/// for a plain file, its decompression for a gzip one, and `None` where
/// that fails.
pub fn decode_data(raw: &[u8], format: DataFormat) -> (r: Option<Vec<u8>>)
    ensures
        match format {
            DataFormat::Plain => r is Some && r->Some_0@ == raw@,
            DataFormat::Gzip => match r {
                Some(v) => gunzip_of(raw@) == Some(v@),
                None => gunzip_of(raw@) is None,
            },
        },
{
    match format {
        DataFormat::Plain => Some(slice_to_vec(raw)),
        DataFormat::Gzip => gunzip(raw),
    }
}

} // verus!
