use vstd::prelude::*;

verus! {

// The coder and decoder of the erasure-coding library, declared so that
// verified code can hold and pass them. Their values are opaque here; the
// spec functions below name what the contracts need of them.
#[verifier::external_type_specification]
#[verifier::external_body]
pub struct ExEncoder(rlnc::full::Encoder);

#[verifier::external_type_specification]
#[verifier::external_body]
pub struct ExDecoder(rlnc::full::Decoder);

/// The number of source pieces the encoder splits its data into.
pub uninterp spec fn encoder_piece_count(e: rlnc::full::Encoder) -> nat;

/// The byte length of one padded source piece held by the encoder.
pub uninterp spec fn encoder_piece_len(e: rlnc::full::Encoder) -> nat;

/// How many linearly independent coded pieces the decoder has absorbed.
pub uninterp spec fn decoder_rank(d: rlnc::full::Decoder) -> nat;

/// The number of independent pieces the decoder needs for a full-rank
/// system.
pub uninterp spec fn decoder_required(d: rlnc::full::Decoder) -> nat;

/// The byte length of one coded payload the decoder was configured with.
pub uninterp spec fn decoder_piece_len(d: rlnc::full::Decoder) -> nat;

/// Whether feeding `piece` to the decoder raises its rank: the piece is
/// linearly independent of what the decoder has absorbed. Gaussian
/// elimination at decode time draws no randomness, so this is a function of
/// the decoder state and the piece bytes alone.
pub uninterp spec fn decoder_absorbs(d: rlnc::full::Decoder, piece: Seq<u8>) -> bool;

/// The bytes a full-rank decoder extracts: back-substitution followed by
/// removal of the boundary marker and padding, a function of the decoder
/// state alone.
pub uninterp spec fn decoder_decoded(d: rlnc::full::Decoder) -> Seq<u8>;

/// Relies on rlnc's Encoder::new: with non-empty data and a non-zero piece
/// count it succeeds, appends a one-byte boundary marker, zero-pads, and
/// splits the result into `piece_count` pieces of ceil((len + 1) /
/// piece_count) bytes each.
#[verifier::external_body]
pub(crate) fn encoder_new(data: Vec<u8>, piece_count: usize) -> (r: rlnc::full::Encoder)
    requires
        data@.len() >= 1,
        piece_count >= 1,
    ensures
        encoder_piece_count(r) == piece_count,
        encoder_piece_len(r) as int == (data@.len() + piece_count) as int / piece_count as int,
{
    rlnc::full::Encoder::new(data, piece_count).unwrap()
}

/// Relies on rlnc's Encoder::code, drawing coefficients from a fresh
/// thread-local generator of the rand crate: the result is always one
/// coding vector of `piece_count` bytes followed by one coded piece of
/// `piece_len` bytes. The coefficients are random, so nothing is said of
/// the contents.
#[verifier::external_body]
pub(crate) fn encoder_code(e: &rlnc::full::Encoder) -> (r: Vec<u8>)
    ensures
        r@.len() == encoder_piece_count(*e) + encoder_piece_len(*e),
{
    e.code(&mut rand::rng())
}

/// Relies on rlnc's Decoder::new: with non-zero piece length and count it
/// succeeds, holding an empty system.
#[verifier::external_body]
pub(crate) fn decoder_new(piece_byte_len: usize, required_piece_count: usize) -> (r:
    rlnc::full::Decoder)
    requires
        piece_byte_len >= 1,
        required_piece_count >= 1,
    ensures
        decoder_rank(r) == 0,
        decoder_required(r) == required_piece_count,
        decoder_piece_len(r) == piece_byte_len,
{
    rlnc::full::Decoder::new(piece_byte_len, required_piece_count).unwrap()
}

/// Relies on rlnc's Decoder::decode: it succeeds exactly when the decoder
/// is not yet full, the piece has the configured length, and the piece is
/// linearly independent of what the decoder holds — success raises the rank
/// by exactly one, failure leaves it unchanged. The rank never exceeds the
/// configured piece count, and the configuration never changes.
#[verifier::external_body]
pub(crate) fn decoder_decode(d: &mut rlnc::full::Decoder, piece: &Vec<u8>) -> (r: Result<
    (),
    String,
>)
    ensures
        decoder_required(*final(d)) == decoder_required(*old(d)),
        decoder_piece_len(*final(d)) == decoder_piece_len(*old(d)),
        r is Ok <==> (decoder_rank(*old(d)) < decoder_required(*old(d)) && piece@.len()
            == decoder_required(*old(d)) + decoder_piece_len(*old(d)) && decoder_absorbs(
            *old(d),
            piece@,
        )),
        r is Ok ==> decoder_rank(*final(d)) == decoder_rank(*old(d)) + 1,
        r is Err ==> decoder_rank(*final(d)) == decoder_rank(*old(d)),
        decoder_rank(*final(d)) <= decoder_required(*old(d)),
{
    match d.decode(piece.as_slice()) {
        Ok(()) => Ok(()),
        Err(e) => Err(e.to_string()),
    }
}

/// Relies on rlnc's Decoder::is_already_decoded: whether the system has
/// full rank.
#[verifier::external_body]
pub(crate) fn decoder_is_ready(d: &rlnc::full::Decoder) -> (r: bool)
    ensures
        r == (decoder_rank(*d) == decoder_required(*d)),
{
    d.is_already_decoded()
}

/// Relies on rlnc's Decoder::get_decoded_data: it fails unless the system
/// has full rank; on success it returns the decoded bytes, named
/// `decoder_decoded` — the boundary marker and padding removed, leaving at
/// least one byte and fewer than piece length times piece count.
#[verifier::external_body]
pub(crate) fn decoder_into_data(d: rlnc::full::Decoder) -> (r: Result<Vec<u8>, String>)
    ensures
        decoder_rank(d) != decoder_required(d) ==> r is Err,
        r matches Ok(v) ==> v@ == decoder_decoded(d),
        r matches Ok(v) ==> 1 <= v@.len() <= decoder_piece_len(d) * decoder_required(d),
{
    match d.get_decoded_data() {
        Ok(v) => Ok(v),
        Err(e) => Err(e.to_string()),
    }
}

} // verus!
