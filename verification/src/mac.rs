//! Hardware addresses and their textual form.

use vstd::prelude::*;
use crate::error::WakeError;

verus! {

/// Number of characters in the textual form of an address: six pairs of
/// digits and five colons.
pub const MAC_TEXT_LEN: usize = 17;

/// Whether `c` is one of `0-9`, `a-f`, `A-F`.
pub open spec fn is_hex_digit(c: char) -> bool {
    ('0' <= c && c <= '9') || ('a' <= c && c <= 'f') || ('A' <= c && c <= 'F')
}

/// The number that the hexadecimal digit `c` stands for.
pub open spec fn hex_digit_value(c: char) -> int
    recommends
        is_hex_digit(c),
{
    if '0' <= c && c <= '9' {
        c as int - '0' as int
    } else if 'a' <= c && c <= 'f' {
        c as int - 'a' as int + 10
    } else {
        c as int - 'A' as int + 10
    }
}

/// Whether `text` is six pairs of hexadecimal digits with a colon between
/// neighbouring pairs, and nothing else.
pub open spec fn is_mac_text(text: Seq<char>) -> bool {
    &&& text.len() == 17
    &&& forall|i: int|
        0 <= i < 17 ==> if i % 3 == 2 {
            #[trigger] text[i] == ':'
        } else {
            is_hex_digit(text[i])
        }
}

/// The octet that the `k`-th pair of digits of `text` spells, first digit
/// high.
pub open spec fn octet_of_text(text: Seq<char>, k: int) -> u8
    recommends
        is_mac_text(text),
        0 <= k < 6,
{
    (16 * hex_digit_value(text[3 * k]) + hex_digit_value(text[3 * k + 1])) as u8
}

/// The six octets that `text` spells.
pub open spec fn octets_of_text(text: Seq<char>) -> Seq<u8>
    recommends
        is_mac_text(text),
{
    Seq::new(6, |k: int| octet_of_text(text, k))
}

/// `c` with an upper-case letter of ASCII turned into its lower-case form.
pub open spec fn ascii_lowercase(c: char) -> char {
    if 'A' <= c && c <= 'Z' {
        ((c as u32) + 32) as char
    } else {
        c
    }
}

/// Whether `first` and `second` are the same text but for the case of
/// their ASCII letters.
pub open spec fn same_ignoring_case(first: Seq<char>, second: Seq<char>) -> bool {
    &&& first.len() == second.len()
    &&& forall|i: int|
        0 <= i < first.len() ==> ascii_lowercase(#[trigger] first[i]) == ascii_lowercase(
            second[i],
        )
}

/// A hexadecimal digit is one in either case, and stands for the same
/// number; a colon is no letter.
pub proof fn lemma_digit_ignores_case(c: char, d: char)
    requires
        ascii_lowercase(c) == ascii_lowercase(d),
    ensures
        is_hex_digit(c) <==> is_hex_digit(d),
        is_hex_digit(c) ==> hex_digit_value(c) == hex_digit_value(d),
        c == ':' <==> d == ':',
{
}

/// Reading an address does not depend on the case of its digits: two texts
/// that differ in case alone are both addresses or both not, and spell the
/// same six octets.
pub proof fn lemma_parse_ignores_case(first: Seq<char>, second: Seq<char>)
    requires
        same_ignoring_case(first, second),
    ensures
        is_mac_text(first) <==> is_mac_text(second),
        is_mac_text(first) ==> octets_of_text(first) == octets_of_text(second),
{
    assert forall|i: int| 0 <= i < first.len() implies (is_hex_digit(first[i]) <==> is_hex_digit(
        second[i],
    )) && (is_hex_digit(first[i]) ==> hex_digit_value(first[i]) == hex_digit_value(second[i]))
        && (first[i] == ':' <==> second[i] == ':') by {
        assert(ascii_lowercase(first[i]) == ascii_lowercase(second[i]));
        lemma_digit_ignores_case(first[i], second[i]);
    }
    if is_mac_text(first) {
        assert forall|k: int| 0 <= k < 6 implies octet_of_text(first, k) == octet_of_text(
            second,
            k,
        ) by {
            assert(is_hex_digit(first[3 * k]));
            assert(is_hex_digit(first[3 * k + 1]));
        }
        assert(octets_of_text(first) =~= octets_of_text(second));
    }
}

/// The pieces into which the colons of `text` cut it, in order. A text
/// without a colon is one piece; two colons in a row have an empty piece
/// between them.
pub open spec fn colon_tokens(text: Seq<char>) -> Seq<Seq<char>>
    decreases text.len(),
{
    if text.len() == 0 {
        seq![Seq::<char>::empty()]
    } else {
        let rest = colon_tokens(text.drop_first());
        if text[0] == ':' {
            seq![Seq::<char>::empty()] + rest
        } else {
            seq![seq![text[0]] + rest[0]] + rest.drop_first()
        }
    }
}

/// `tokens` written one after the other with a colon between neighbours.
pub open spec fn joined_with_colons(tokens: Seq<Seq<char>>) -> Seq<char>
    decreases tokens.len(),
{
    if tokens.len() == 0 {
        Seq::empty()
    } else if tokens.len() == 1 {
        tokens[0]
    } else {
        tokens[0] + seq![':'] + joined_with_colons(tokens.drop_first())
    }
}

/// Whether `token` holds no colon.
pub open spec fn has_no_colon(token: Seq<char>) -> bool {
    forall|j: int| 0 <= j < token.len() ==> token[j] != ':'
}

/// Whether `token` is two hexadecimal digits.
pub open spec fn is_octet_token(token: Seq<char>) -> bool {
    token.len() == 2 && is_hex_digit(token[0]) && is_hex_digit(token[1])
}

/// The octet that the two digits of `token` spell, first digit high.
pub open spec fn octet_of_token(token: Seq<char>) -> u8
    recommends
        is_octet_token(token),
{
    (16 * hex_digit_value(token[0]) + hex_digit_value(token[1])) as u8
}

/// Cutting a text at its colons and joining the pieces with colons gives
/// the text back; there is at least one piece, and no piece holds a colon.
pub proof fn lemma_joined_tokens(text: Seq<char>)
    ensures
        colon_tokens(text).len() >= 1,
        joined_with_colons(colon_tokens(text)) == text,
        forall|k: int|
            0 <= k < colon_tokens(text).len() ==> has_no_colon(#[trigger] colon_tokens(text)[k]),
    decreases text.len(),
{
    let tokens = colon_tokens(text);
    if text.len() == 0 {
        assert(joined_with_colons(tokens) =~= text);
    } else {
        let tail = text.drop_first();
        let rest = colon_tokens(tail);
        lemma_joined_tokens(tail);
        if text[0] == ':' {
            assert(tokens.drop_first() =~= rest);
            assert(joined_with_colons(tokens) =~= text);
        } else {
            let head = seq![text[0]] + rest[0];
            assert(tokens[0] == head);
            assert(tokens.drop_first() =~= rest.drop_first());
            if rest.len() == 1 {
                assert(joined_with_colons(rest) == rest[0]);
                assert(joined_with_colons(tokens) =~= text);
            } else {
                assert(joined_with_colons(rest) == rest[0] + seq![':'] + joined_with_colons(
                    rest.drop_first(),
                ));
                assert(joined_with_colons(tokens) == head + seq![':'] + joined_with_colons(
                    rest.drop_first(),
                ));
                assert(text =~= seq![text[0]] + tail);
                assert(joined_with_colons(tokens) =~= text);
            }
            assert forall|k: int| 0 <= k < tokens.len() implies has_no_colon(
                #[trigger] tokens[k],
            ) by {
                if k == 0 {
                    assert(has_no_colon(rest[0]));
                } else {
                    assert(tokens[k] == rest[k]);
                }
            }
        }
    }
}

/// Joining pieces that hold no colon and cutting the result at its colons
/// gives the pieces back.
pub proof fn lemma_tokens_of_joined(tokens: Seq<Seq<char>>)
    requires
        tokens.len() >= 1,
        forall|k: int| 0 <= k < tokens.len() ==> has_no_colon(#[trigger] tokens[k]),
    ensures
        colon_tokens(joined_with_colons(tokens)) == tokens,
    decreases tokens.len(), tokens[0].len(),
{
    let text = joined_with_colons(tokens);
    if tokens[0].len() == 0 {
        assert(tokens[0] =~= Seq::<char>::empty());
        if tokens.len() == 1 {
            assert(colon_tokens(text) =~= tokens);
        } else {
            let rest = tokens.drop_first();
            assert forall|k: int| 0 <= k < rest.len() implies has_no_colon(#[trigger] rest[k]) by {
                assert(rest[k] == tokens[k + 1]);
            }
            lemma_tokens_of_joined(rest);
            assert(text[0] == ':');
            assert(text.drop_first() =~= joined_with_colons(rest));
            assert(colon_tokens(text) =~= tokens);
        }
    } else {
        let c = tokens[0][0];
        let shorter = tokens.update(0, tokens[0].drop_first());
        assert forall|k: int| 0 <= k < shorter.len() implies has_no_colon(
            #[trigger] shorter[k],
        ) by {
            if k == 0 {
                assert(has_no_colon(tokens[0]));
                assert forall|j: int| 0 <= j < shorter[0].len() implies shorter[0][j] != ':' by {
                    assert(shorter[0][j] == tokens[0][j + 1]);
                }
            } else {
                assert(shorter[k] == tokens[k]);
            }
        }
        lemma_tokens_of_joined(shorter);
        assert(has_no_colon(tokens[0]));
        assert(text[0] == c);
        assert(shorter.drop_first() =~= tokens.drop_first());
        assert(text.drop_first() =~= joined_with_colons(shorter));
        assert(seq![c] + shorter[0] =~= tokens[0]);
        assert(colon_tokens(text) =~= tokens);
    }
}

/// Pieces of two characters each, joined with colons, take three places
/// each but for the last, which takes two: the two characters of a piece,
/// then a colon.
pub proof fn lemma_joined_pairs(tokens: Seq<Seq<char>>)
    requires
        tokens.len() >= 1,
        forall|k: int| 0 <= k < tokens.len() ==> (#[trigger] tokens[k]).len() == 2,
    ensures
        joined_with_colons(tokens).len() == 3 * tokens.len() - 1,
        forall|k: int|
            0 <= k < tokens.len() ==> {
                &&& joined_with_colons(tokens)[3 * k] == (#[trigger] tokens[k])[0]
                &&& joined_with_colons(tokens)[3 * k + 1] == tokens[k][1]
            },
        forall|i: int|
            0 <= i < joined_with_colons(tokens).len() && i % 3 == 2
                ==> #[trigger] joined_with_colons(tokens)[i] == ':',
    decreases tokens.len(),
{
    if tokens.len() > 1 {
        let rest = tokens.drop_first();
        assert forall|k: int| 0 <= k < rest.len() implies (#[trigger] rest[k]).len() == 2 by {
            assert(rest[k] == tokens[k + 1]);
        }
        lemma_joined_pairs(rest);
        let joined = joined_with_colons(tokens);
        let tail = joined_with_colons(rest);
        assert(joined == tokens[0] + seq![':'] + tail);
        assert forall|k: int| 0 <= k < tokens.len() implies {
            &&& joined[3 * k] == (#[trigger] tokens[k])[0]
            &&& joined[3 * k + 1] == tokens[k][1]
        } by {
            if k > 0 {
                assert(rest[k - 1] == tokens[k]);
                assert(joined[3 * k] == tail[3 * (k - 1)]);
                assert(joined[3 * k + 1] == tail[3 * (k - 1) + 1]);
            }
        }
        assert forall|i: int| 0 <= i < joined.len() && i % 3 == 2 implies #[trigger] joined[i]
            == ':' by {
            if i > 2 {
                assert(joined[i] == tail[i - 3]);
            }
        }
    }
}

/// A text is an address exactly if its colons cut it into six pieces of
/// two hexadecimal digits each; the pieces then spell the six octets.
pub proof fn lemma_mac_text_is_six_tokens(text: Seq<char>)
    ensures
        is_mac_text(text) <==> (colon_tokens(text).len() == 6 && forall|k: int|
            0 <= k < 6 ==> is_octet_token(#[trigger] colon_tokens(text)[k])),
        is_mac_text(text) ==> forall|k: int|
            0 <= k < 6 ==> octet_of_text(text, k) == octet_of_token(
                #[trigger] colon_tokens(text)[k],
            ),
{
    lemma_joined_tokens(text);
    let cut = colon_tokens(text);
    if is_mac_text(text) {
        let pieces = Seq::new(6, |k: int| text.subrange(3 * k, 3 * k + 2));
        assert forall|k: int| 0 <= k < 6 implies (#[trigger] pieces[k]).len() == 2
            && is_octet_token(pieces[k]) && has_no_colon(pieces[k]) && octet_of_token(pieces[k])
            == octet_of_text(text, k) by {
            assert(pieces[k][0] == text[3 * k]);
            assert(pieces[k][1] == text[3 * k + 1]);
            assert(is_hex_digit(text[3 * k]));
            assert(is_hex_digit(text[3 * k + 1]));
        }
        lemma_joined_pairs(pieces);
        let joined = joined_with_colons(pieces);
        assert forall|i: int| 0 <= i < 17 implies joined[i] == text[i] by {
            let k = i / 3;
            if i % 3 == 0 {
                assert(joined[3 * k] == pieces[k][0]);
            } else if i % 3 == 1 {
                assert(joined[3 * k + 1] == pieces[k][1]);
            } else {
                assert(text[i] == ':');
            }
        }
        assert(joined =~= text);
        lemma_tokens_of_joined(pieces);
        assert(cut == pieces);
    }
    if cut.len() == 6 && forall|k: int| 0 <= k < 6 ==> is_octet_token(#[trigger] cut[k]) {
        assert forall|k: int| 0 <= k < 6 implies (#[trigger] cut[k]).len() == 2 by {
            assert(is_octet_token(cut[k]));
        }
        lemma_joined_pairs(cut);
        assert forall|i: int| 0 <= i < 17 implies if i % 3 == 2 {
            #[trigger] text[i] == ':'
        } else {
            is_hex_digit(text[i])
        } by {
            let k = i / 3;
            assert(is_octet_token(cut[k]));
            if i % 3 == 0 {
                assert(text[3 * k] == cut[k][0]);
            } else if i % 3 == 1 {
                assert(text[3 * k + 1] == cut[k][1]);
            }
        }
    }
}

/// Reads one hexadecimal digit.
pub fn hex_digit(c: char) -> (digit: Option<u8>)
    ensures
        digit is Some <==> is_hex_digit(c),
        digit matches Some(d) ==> d == hex_digit_value(c) && d < 16,
{
    let n: u32 = c as u32;
    if 48 <= n && n <= 57 {
        Some((n - 48) as u8)
    } else if 97 <= n && n <= 102 {
        Some((n - 87) as u8)
    } else if 65 <= n && n <= 70 {
        Some((n - 55) as u8)
    } else {
        None
    }
}

/// A hardware address: six octets.
#[derive(Debug, Clone, Copy, PartialEq, Eq)]
pub struct MacAddress {
    octets: [u8; 6],
}

impl View for MacAddress {
    type V = Seq<u8>;

    /// The six octets, in transmission order.
    open spec fn view(&self) -> Seq<u8> {
        self.spec_octets()@
    }
}

impl MacAddress {
    /// The octets as an array.
    pub closed spec fn spec_octets(&self) -> [u8; 6] {
        self.octets
    }

    /// The address with the given octets.
    pub fn new(octets: [u8; 6]) -> (mac: MacAddress)
        ensures
            mac@ == octets@,
    {
        MacAddress { octets }
    }

    /// The six octets.
    pub fn octets(&self) -> (octets: [u8; 6])
        ensures
            octets@ == self@,
    {
        self.octets
    }

    /// Reads an address from its textual form, `aa:bb:cc:dd:ee:ff`, digits
    /// in either case.
    pub fn parse(text: &str) -> (res: Result<MacAddress, WakeError>)
        ensures
            res is Ok <==> is_mac_text(text@),
            res matches Ok(mac) ==> mac@ == octets_of_text(text@),
            res matches Err(error) ==> error == WakeError::InvalidMacAddress,
    {
        if text.unicode_len() != MAC_TEXT_LEN {
            return Err(WakeError::InvalidMacAddress);
        }
        let mut octets: [u8; 6] = [0u8; 6];
        let mut k: usize = 0;
        while k < 6
            invariant
                0 <= k <= 6,
                text@.len() == 17,
                forall|i: int|
                    0 <= i < 3 * k && i < 17 ==> if i % 3 == 2 {
                        #[trigger] text@[i] == ':'
                    } else {
                        is_hex_digit(text@[i])
                    },
                forall|j: int| 0 <= j < k ==> #[trigger] octets@[j] == octet_of_text(text@, j),
            decreases 6 - k,
        {
            let high = hex_digit(text.get_char(3 * k));
            let low = hex_digit(text.get_char(3 * k + 1));
            match (high, low) {
                (Some(h), Some(l)) => {
                    octets[k] = 16 * h + l;
                },
                _ => {
                    return Err(WakeError::InvalidMacAddress);
                },
            }
            if k < 5 && text.get_char(3 * k + 2) != ':' {
                return Err(WakeError::InvalidMacAddress);
            }
            k += 1;
        }
        let mac = MacAddress { octets };
        assert(mac@ =~= octets_of_text(text@));
        Ok(mac)
    }
}

} // verus!
