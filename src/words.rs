use vstd::prelude::*;

verus! {

/// The four bytes of `w`, most significant first.
pub open spec fn be_bytes(w: u32) -> Seq<u8> {
    seq![
        (w / 0x100_0000) as u8,
        (w / 0x1_0000 % 0x100) as u8,
        (w / 0x100 % 0x100) as u8,
        (w % 0x100) as u8,
    ]
}

/// The word whose bytes, most significant first, are `b`.
pub open spec fn be_word(b: Seq<u8>) -> int {
    b[0] * 0x100_0000 + b[1] * 0x1_0000 + b[2] * 0x100 + b[3]
}

/// Splitting a word into big-endian bytes and joining them again gives the word back.
pub proof fn lemma_word_bytes_round_trip(w: u32)
    ensures
        be_word(be_bytes(w)) == w,
{
    let b = be_bytes(w);
    assert(b[0] == w / 0x100_0000);
    assert(b[1] == w / 0x1_0000 % 0x100);
    assert(b[2] == w / 0x100 % 0x100);
    assert(b[3] == w % 0x100);
    assert(be_word(b) == w) by (nonlinear_arith)
        requires
            b[0] == w / 0x100_0000,
            b[1] == w / 0x1_0000 % 0x100,
            b[2] == w / 0x100 % 0x100,
            b[3] == w % 0x100,
    ;
}

/// Joining four bytes into a word and splitting it again gives the bytes back.
pub proof fn lemma_bytes_word_round_trip(b: Seq<u8>)
    requires
        b.len() == 4,
    ensures
        0 <= be_word(b) <= u32::MAX,
        be_bytes(be_word(b) as u32) == b,
{
    let w = be_word(b);
    assert(0 <= w <= u32::MAX) by (nonlinear_arith)
        requires
            w == b[0] * 0x100_0000 + b[1] * 0x1_0000 + b[2] * 0x100 + b[3],
            0 <= b[0] < 256,
            0 <= b[1] < 256,
            0 <= b[2] < 256,
            0 <= b[3] < 256,
    ;
    assert(w / 0x100_0000 == b[0] && w / 0x1_0000 % 0x100 == b[1] && w / 0x100 % 0x100 == b[2] && w
        % 0x100 == b[3]) by (nonlinear_arith)
        requires
            w == b[0] * 0x100_0000 + b[1] * 0x1_0000 + b[2] * 0x100 + b[3],
            0 <= b[0] < 256,
            0 <= b[1] < 256,
            0 <= b[2] < 256,
            0 <= b[3] < 256,
    ;
    assert(be_bytes(w as u32) =~= b);
}

/// The codewords as big-endian groups of four bytes, in order.
pub fn words_to_bytes(words: &Vec<u32>) -> (r: Vec<[u8; 4]>)
    ensures
        r@.len() == words@.len(),
        forall|i: int| 0 <= i < r@.len() ==> (#[trigger] r@[i])@ == be_bytes(words@[i]),
{
    let mut r: Vec<[u8; 4]> = Vec::with_capacity(words.len());
    let mut i: usize = 0;
    while i < words.len()
        invariant
            i <= words@.len(),
            r@.len() == i,
            forall|j: int| 0 <= j < i ==> (#[trigger] r@[j])@ == be_bytes(words@[j]),
        decreases words@.len() - i,
    {
        let w = words[i];
        let bytes: [u8; 4] = [
            (w / 0x100_0000) as u8,
            (w / 0x1_0000 % 0x100) as u8,
            (w / 0x100 % 0x100) as u8,
            (w % 0x100) as u8,
        ];
        assert(bytes@ =~= be_bytes(w));
        r.push(bytes);
        i = i + 1;
    }
    r
}

/// The codewords read from big-endian groups of four bytes, in order.
pub fn words_from_bytes(bytes: &Vec<[u8; 4]>) -> (r: Vec<u32>)
    ensures
        r@.len() == bytes@.len(),
        forall|i: int| 0 <= i < r@.len() ==> #[trigger] r@[i] == be_word(bytes@[i]@),
{
    let mut r: Vec<u32> = Vec::with_capacity(bytes.len());
    let mut i: usize = 0;
    while i < bytes.len()
        invariant
            i <= bytes@.len(),
            r@.len() == i,
            forall|j: int| 0 <= j < i ==> #[trigger] r@[j] == be_word(bytes@[j]@),
        decreases bytes@.len() - i,
    {
        let b = bytes[i];
        proof {
            lemma_bytes_word_round_trip(b@);
        }
        let w = (b[0] as u32) * 0x100_0000 + (b[1] as u32) * 0x1_0000 + (b[2] as u32) * 0x100
            + (b[3] as u32);
        r.push(w);
        i = i + 1;
    }
    r
}

} // verus!
