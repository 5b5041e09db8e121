//! Dispatch and decompression: the loader's entry point on bytes.

use vstd::prelude::*;

use crate::json::flyg_document;
use crate::json::lower_byte;
use crate::json::parse_flyg_document;
use crate::json::to_lower_byte;
use crate::model::FlygFlight;
use crate::model::FlygFormatError;
use vstd::string::StringSliceAdditionalSpecFns;

verus! {

/// What gzip decompression yields on the given bytes: the inflated first
/// member when the bytes open with a well-formed single-member gzip
/// stream (bytes after that member are ignored), or nothing when they do
/// not. The outcome is a function of the bytes alone.
pub uninterp spec fn gzip_decode(compressed: Seq<u8>) -> Option<Seq<u8>>;

/// Relies on libflate::gzip::Decoder (over an in-memory buffer, so no
/// outside state is involved): it reads the gzip header eagerly and then
/// inflates the member, failing on a malformed header, stream or
/// checksum.
#[verifier::external_body]
fn gunzip(bytes: &[u8]) -> (r: Option<Vec<u8>>)
    ensures
        match r {
            Some(v) => gzip_decode(bytes@) == Some(v@),
            None => gzip_decode(bytes@) is None,
        },
{
    match libflate::gzip::Decoder::new(bytes) {
        Ok(mut decoder) => {
            let mut out = Vec::new();
            match std::io::Read::read_to_end(&mut decoder, &mut out) {
                Ok(_) => Some(out),
                Err(_) => None,
            }
        },
        Err(_) => None,
    }
}

/// The reserved filename extension that selects the compressed path,
/// in lower case.
pub open spec fn compressed_extension() -> Seq<u8> {
    "cflyg".spec_bytes()
}

/// The start of the final extension of `name`: the position right after
/// the last `.`, or `0` when the name holds no `.` (the name then has no
/// extension at all).
pub open spec fn extension_start(name: Seq<u8>, pos: int) -> int
    decreases pos when 0 <= pos <= name.len()
{
    if pos <= 0 {
        0
    } else if name[pos - 1] == 46 {
        pos
    } else {
        extension_start(name, pos - 1)
    }
}

/// Whether `name` carries the reserved compressed extension, compared
/// case-insensitively: it holds a `.`, and the substring after the last
/// one folds to the reserved token. A name without a `.` has no extension
/// and never selects the compressed path.
pub open spec fn spec_is_compressed_name(name: Seq<u8>) -> bool {
    let st = extension_start(name, name.len() as int);
    st > 0 && name.subrange(st, name.len() as int).map_values(|b: u8| lower_byte(b))
        == compressed_extension()
}

pub proof fn lemma_extension_start_bounds(name: Seq<u8>, pos: int)
    requires
        0 <= pos <= name.len(),
    ensures
        0 <= extension_start(name, pos) <= pos,
    decreases pos,
{
    if pos > 0 && name[pos - 1] != 46 {
        lemma_extension_start_bounds(name, pos - 1);
    }
}

/// Whether the filename selects the compressed path: it has a final
/// extension (a part after a last `.`) and that extension equals the
/// reserved token, in any letter casing.
pub fn is_compressed_name(name: &[u8]) -> (r: bool)
    ensures
        r == spec_is_compressed_name(name@),
{
    let mut start: usize = name.len();
    while start > 0 && name[start - 1] != 46
        invariant
            0 <= start <= name@.len(),
            extension_start(name@, name@.len() as int) == extension_start(name@, start as int),
        decreases start,
    {
        start = start - 1;
    }
    proof {
        lemma_extension_start_bounds(name@, name@.len() as int);
        assert(extension_start(name@, start as int) == start);
    }
    if start == 0 {
        return false;
    }
    let ghost ext = name@.subrange(
        extension_start(name@, name@.len() as int),
        name@.len() as int,
    );
    let token: &[u8] = "cflyg".as_bytes();
    if name.len() - start != token.len() {
        proof {
            assert(ext.len() == name@.len() - start);
            assert(ext.map_values(|b: u8| lower_byte(b)).len() == ext.len());
        }
        return false;
    }
    let n: usize = token.len();
    let mut i: usize = 0;
    while i < n
        invariant
            0 <= i <= n,
            n == token@.len(),
            n == name@.len() - start,
            name@.len() <= usize::MAX,
            0 < start <= name@.len(),
            start == extension_start(name@, name@.len() as int),
            ext == name@.subrange(start as int, name@.len() as int),
            token@ == compressed_extension(),
            forall|j: int| 0 <= j < i ==> lower_byte(ext[j]) == token@[j],
        decreases n - i,
    {
        let b = to_lower_byte(name[start + i]);
        if b != token[i] {
            proof {
                assert(ext[i as int] == name@[start + i]);
                assert(ext.map_values(|b: u8| lower_byte(b))[i as int] != compressed_extension()[i as int]);
            }
            return false;
        }
        proof {
            assert(ext[i as int] == name@[start + i]);
        }
        i = i + 1;
    }
    proof {
        assert(ext.map_values(|b: u8| lower_byte(b)) =~= compressed_extension());
    }
    true
}

/// Two byte sequences that agree letter for letter up to ASCII case are
/// dispatched the same way: one selects the compressed path exactly when
/// the other does.
pub proof fn lemma_extension_case_insensitive(a: Seq<u8>, b: Seq<u8>)
    requires
        a.len() == b.len(),
        forall|i: int| 0 <= i < a.len() ==> lower_byte(a[i]) == lower_byte(b[i]),
    ensures
        spec_is_compressed_name(a) == spec_is_compressed_name(b),
{
    lemma_extension_start_case(a, b, a.len() as int);
    let st = extension_start(a, a.len() as int);
    lemma_extension_start_bounds(a, a.len() as int);
    let ea = a.subrange(st, a.len() as int);
    let eb = b.subrange(st, b.len() as int);
    assert(ea.map_values(|x: u8| lower_byte(x)) =~= eb.map_values(|x: u8| lower_byte(x)));
}

/// Decode the content of a flyg file, dispatching on the filename alone:
/// a name with the reserved compressed extension selects gzip
/// decompression first, any other name has its content decoded directly.
///
/// The result is the flight the (decompressed) content encodes; the error
/// classifies the failure: `DecompressionFailed` exactly when the
/// compressed path was selected and the content is not a well-formed gzip
/// stream, `FileFormatNotRecognized` exactly when the bytes handed to the
/// document decoder do not form a valid document. `CouldNotOpenFile` is
/// never produced here: it belongs to the caller that reads the file.
pub fn decode_flight_recording(filename: &[u8], content: &[u8]) -> (r: Result<
    FlygFlight,
    FlygFormatError,
>)
    ensures
        spec_is_compressed_name(filename@) ==> match gzip_decode(content@) {
            Some(d) => match r {
                Ok(f) => flyg_document(d) == Some(f@),
                Err(e) => flyg_document(d) is None && e
                    == FlygFormatError::FileFormatNotRecognized,
            },
            None => r == Err::<FlygFlight, FlygFormatError>(
                FlygFormatError::DecompressionFailed,
            ),
        },
        !spec_is_compressed_name(filename@) ==> match r {
            Ok(f) => flyg_document(content@) == Some(f@),
            Err(e) => flyg_document(content@) is None && e
                == FlygFormatError::FileFormatNotRecognized,
        },
        r != Err::<FlygFlight, FlygFormatError>(FlygFormatError::CouldNotOpenFile),
{
    decode_flight_recording_config(true, filename, content)
}

/// [`decode_flight_recording`] with the compression capability as a
/// configuration flag. With the capability enabled the reserved
/// extension selects the compressed path; with it disabled that path
/// never runs, and a reserved-extension file falls through to direct
/// decoding (where gzip bytes predictably fail format recognition).
pub fn decode_flight_recording_config(
    compression_enabled: bool,
    filename: &[u8],
    content: &[u8],
) -> (r: Result<FlygFlight, FlygFormatError>)
    ensures
        compression_enabled && spec_is_compressed_name(filename@) ==> match gzip_decode(
            content@,
        ) {
            Some(d) => match r {
                Ok(f) => flyg_document(d) == Some(f@),
                Err(e) => flyg_document(d) is None && e
                    == FlygFormatError::FileFormatNotRecognized,
            },
            None => r == Err::<FlygFlight, FlygFormatError>(
                FlygFormatError::DecompressionFailed,
            ),
        },
        !(compression_enabled && spec_is_compressed_name(filename@)) ==> match r {
            Ok(f) => flyg_document(content@) == Some(f@),
            Err(e) => flyg_document(content@) is None && e
                == FlygFormatError::FileFormatNotRecognized,
        },
        r != Err::<FlygFlight, FlygFormatError>(FlygFormatError::CouldNotOpenFile),
{
    if compression_enabled && is_compressed_name(filename) {
        match gunzip(content) {
            Some(decompressed) => parse_flyg_document(decompressed.as_slice()),
            None => Err(FlygFormatError::DecompressionFailed),
        }
    } else {
        parse_flyg_document(content)
    }
}

proof fn lemma_extension_start_case(a: Seq<u8>, b: Seq<u8>, pos: int)
    requires
        a.len() == b.len(),
        0 <= pos <= a.len(),
        forall|i: int| 0 <= i < a.len() ==> lower_byte(a[i]) == lower_byte(b[i]),
    ensures
        extension_start(a, pos) == extension_start(b, pos),
    decreases pos,
{
    if pos > 0 {
        // no letter folds to `.`, so case-equal bytes agree on being `.`
        assert(a[pos - 1] == 46 <==> b[pos - 1] == 46) by {
            assert(lower_byte(a[pos - 1]) == lower_byte(b[pos - 1]));
        }
        if a[pos - 1] != 46 {
            lemma_extension_start_case(a, b, pos - 1);
        }
    }
}

} // verus!
