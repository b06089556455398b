//! The content packager: bundles a binary module and its optional bridging
//! artifact into one textual content blob, each part carried through a
//! reversible base64 transform.
//!
//! The two-part form is a two-field JSON object with the keys `wasm` and
//! `binding`; since base64 text never holds a quote, the object needs no
//! escaping and the framing is plain concatenation, which the decoder here
//! inverts exactly.

use base64::Engine;
use vstd::prelude::*;

verus! {

/// What the STANDARD base64 engine produces for the given bytes. The
/// encoding depends on the bytes alone.
pub uninterp spec fn base64_of(bytes: Seq<u8>) -> Seq<char>;

/// A character of the standard base64 alphabet, or its `=` padding.
pub open spec fn is_base64_char(c: char) -> bool {
    (65 <= c as u32 && c as u32 <= 90) || (97 <= c as u32 && c as u32 <= 122) || (48 <= c as u32
        && c as u32 <= 57) || c == '+' || c == '/' || c == '='
}

/// Every character is from the base64 alphabet (padding included).
pub open spec fn base64_seq(s: Seq<char>) -> bool {
    forall|i: int| 0 <= i < s.len() ==> is_base64_char(s[i])
}

/// No character is a double quote.
pub open spec fn quote_free(s: Seq<char>) -> bool {
    forall|i: int| 0 <= i < s.len() ==> s[i] != '"'
}

/// Base64 text never holds a quote.
pub proof fn lemma_base64_quote_free(s: Seq<char>)
    requires
        base64_seq(s),
    ensures
        quote_free(s),
{
    assert forall|i: int| 0 <= i < s.len() implies s[i] != '"' by {
        assert(is_base64_char(s[i]));
        assert('"' as u32 == 34);
    }
}

/// Relies on base64's `STANDARD` engine `encode`: standard alphabet with
/// `=` padding, no line wrapping; the result depends on the input bytes
/// alone. The length bound keeps the engine's output-size computation from
/// overflowing.
#[verifier::external_body]
fn base64_encode(bytes: &Vec<u8>) -> (r: String)
    requires
        bytes@.len() <= usize::MAX as int / 4,
    ensures
        r@ == base64_of(bytes@),
        base64_seq(r@),
{
    base64::engine::general_purpose::STANDARD.encode(bytes.as_slice())
}

/// Relies on base64's `STANDARD` engine `decode`: it inverts what the
/// `STANDARD` engine's `encode` produced; any other input may be rejected.
#[verifier::external_body]
fn base64_decode(s: &str) -> (r: Option<Vec<u8>>)
    ensures
        match r {
            Some(v) => forall|b: Seq<u8>| s@ == base64_of(b) ==> v@ == b,
            None => forall|b: Seq<u8>| s@ != base64_of(b),
        },
{
    match base64::engine::general_purpose::STANDARD.decode(s) {
        Ok(v) => Some(v),
        Err(_) => None,
    }
}

/// A packaged noscript: the binary module and its bridging code, each
/// already in base64 text form.
#[derive(Debug)]
pub struct NoscriptContent {
    pub wasm: String,
    pub binding: String,
}

/// The serialized two-part content form: a JSON object with the `wasm`
/// field first and the `binding` field second.
pub open spec fn content_of(w: Seq<char>, b: Seq<char>) -> Seq<char> {
    "{\"wasm\":\""@ + w + "\",\"binding\":\""@ + b + "\"}"@
}

impl NoscriptContent {
    /// The single-string serialized form of this content.
    pub fn to_string(&self) -> (r: String)
        ensures
            r@ == content_of(self.wasm@, self.binding@),
    {
        let mut s = String::new();
        s.append("{\"wasm\":\"");
        s.append(self.wasm.as_str());
        s.append("\",\"binding\":\"");
        s.append(self.binding.as_str());
        s.append("\"}");
        proof {
            assert(s@ =~= content_of(self.wasm@, self.binding@));
        }
        s
    }
}

/// Builds the packaged content from the module bytes and the bridging
/// bytes: each part becomes its base64 text.
pub fn build_content(wasm: &Vec<u8>, binding: &Vec<u8>) -> (r: NoscriptContent)
    requires
        wasm@.len() <= usize::MAX as int / 4,
        binding@.len() <= usize::MAX as int / 4,
    ensures
        r.wasm@ == base64_of(wasm@),
        r.binding@ == base64_of(binding@),
        base64_seq(r.wasm@),
        base64_seq(r.binding@),
{
    let w = base64_encode(wasm);
    let b = base64_encode(binding);
    NoscriptContent { wasm: w, binding: b }
}

/// Packages a module and its bridging artifact into one content string:
/// both parts base64-encoded and framed as the two-field object form.
pub fn package_with_binding(wasm: &Vec<u8>, binding: &Vec<u8>) -> (r: String)
    requires
        wasm@.len() <= usize::MAX as int / 4,
        binding@.len() <= usize::MAX as int / 4,
    ensures
        r@ == content_of(base64_of(wasm@), base64_of(binding@)),
        base64_seq(base64_of(wasm@)),
        base64_seq(base64_of(binding@)),
{
    let content = build_content(wasm, binding);
    content.to_string()
}

/// Whether `s` is exactly the packaged form of the quote-free field texts
/// `w` and `b`.
pub open spec fn is_packaged_pair(s: Seq<char>, w: Seq<char>, b: Seq<char>) -> bool {
    quote_free(w) && quote_free(b) && s == content_of(w, b)
}

/// The two field texts a packaged content string was built from, when it
/// has that form for some pair of quote-free fields; absent otherwise.
pub open spec fn content_fields_of(s: Seq<char>) -> Option<(Seq<char>, Seq<char>)> {
    if exists|w: Seq<char>, b: Seq<char>| is_packaged_pair(s, w, b) {
        Some(choose|w: Seq<char>, b: Seq<char>| is_packaged_pair(s, w, b))
    } else {
        None
    }
}

/// Where each piece of a packaged string sits: the front frame, the first
/// field, the middle frame, the second field, the back frame.
proof fn lemma_packaged_shape(s: Seq<char>, w: Seq<char>, b: Seq<char>)
    requires
        is_packaged_pair(s, w, b),
    ensures
        s.len() == 24 + w.len() + b.len(),
        s.subrange(0, 9) == "{\"wasm\":\""@,
        w == s.subrange(9, 9 + w.len() as int),
        forall|k: int| 9 <= k < 9 + w.len() as int ==> s[k] != '"',
        s[9 + w.len() as int] == '"',
        s.subrange(9 + w.len() as int, 22 + w.len() as int) == "\",\"binding\":\""@,
        b == s.subrange(22 + w.len() as int, 22 + w.len() as int + b.len() as int),
        forall|k: int| 22 + w.len() as int <= k < 22 + w.len() as int + b.len() as int ==> s[k] != '"',
        s[22 + w.len() as int + b.len() as int] == '"',
        s.subrange(22 + w.len() as int + b.len() as int, s.len() as int) == "\"}"@,
{
    reveal_strlit("{\"wasm\":\"");
    reveal_strlit("\",\"binding\":\"");
    reveal_strlit("\"}");
    let l1 = "{\"wasm\":\""@;
    let l2 = "\",\"binding\":\""@;
    let l3 = "\"}"@;
    assert(l1.len() == 9);
    assert(l2.len() == 13);
    assert(l3.len() == 2);
    assert(s.len() == 24 + w.len() + b.len());
    assert(s.subrange(0, 9) =~= l1);
    assert(w =~= s.subrange(9, 9 + w.len() as int));
    assert forall|k: int| 9 <= k < 9 + w.len() as int implies s[k] != '"' by {
        assert(s[k] == w[k - 9]);
    }
    assert(s[9 + w.len() as int] == l2[0]);
    assert(l2[0] == '"');
    assert(s.subrange(9 + w.len() as int, 22 + w.len() as int) =~= l2);
    assert(b =~= s.subrange(22 + w.len() as int, 22 + w.len() as int + b.len() as int));
    assert forall|k: int| 22 + w.len() as int <= k < 22 + w.len() as int + b.len() as int implies s[k] != '"' by {
        assert(s[k] == b[k - 22 - w.len() as int]);
    }
    assert(s[22 + w.len() as int + b.len() as int] == l3[0]);
    assert(l3[0] == '"');
    assert(s.subrange(22 + w.len() as int + b.len() as int, s.len() as int) =~= l3);
}

/// A packaged string decomposes into its two fields in only one way.
proof fn lemma_packaged_pair_unique(
    s: Seq<char>,
    w1: Seq<char>,
    b1: Seq<char>,
    w2: Seq<char>,
    b2: Seq<char>,
)
    requires
        is_packaged_pair(s, w1, b1),
        is_packaged_pair(s, w2, b2),
    ensures
        w1 == w2,
        b1 == b2,
{
    lemma_packaged_shape(s, w1, b1);
    lemma_packaged_shape(s, w2, b2);
    if w1.len() < w2.len() {
        assert(s[9 + w1.len() as int] == '"');
        assert(false);
    }
    if w2.len() < w1.len() {
        assert(s[9 + w2.len() as int] == '"');
        assert(false);
    }
    assert(w1 == w2);
    assert(b1.len() == b2.len());
    assert(b1 == b2);
}

/// Law: a packaged content string decodes to exactly the two quote-free
/// field texts it was built from.
pub proof fn lemma_content_round_trip(w: Seq<char>, b: Seq<char>)
    requires
        quote_free(w),
        quote_free(b),
    ensures
        content_fields_of(content_of(w, b)) == Some((w, b)),
{
    let s = content_of(w, b);
    assert(is_packaged_pair(s, w, b));
    let (w2, b2) = choose|w2: Seq<char>, b2: Seq<char>| is_packaged_pair(s, w2, b2);
    lemma_packaged_pair_unique(s, w2, b2, w, b);
}

/// Finds the first `"` at or after `from`.
fn find_quote(s: &str, from: usize) -> (r: Option<usize>)
    requires
        from <= s@.len(),
    ensures
        match r {
            Some(j) => from <= j < s@.len() && s@[j as int] == '"' && (forall|k: int|
                from <= k < j ==> s@[k] != '"'),
            None => forall|k: int| from <= k < s@.len() ==> s@[k] != '"',
        },
{
    let n = s.unicode_len();
    let mut i = from;
    while i < n
        invariant
            from <= i <= n,
            n == s@.len(),
            forall|k: int| from <= k < i ==> s@[k] != '"',
        decreases n - i,
    {
        let c = s.get_char(i);
        if c == '"' {
            return Some(i);
        }
        i += 1;
    }
    None
}

/// Whether the characters of `lit` stand in `s` starting at `at`.
fn expect_lit(s: &str, at: usize, lit: &str) -> (r: bool)
    requires
        at <= s@.len(),
    ensures
        r == (at + lit@.len() <= s@.len() && s@.subrange(at as int, at + lit@.len()) == lit@),
{
    let m = lit.unicode_len();
    let n = s.unicode_len();
    if m > n - at {
        return false;
    }
    let mut j: usize = 0;
    while j < m
        invariant
            j <= m,
            m == lit@.len(),
            n == s@.len(),
            at + m <= n,
            forall|k: int| 0 <= k < j ==> s@[at + k] == lit@[k],
        decreases m - j,
    {
        if s.get_char(at + j) != lit.get_char(j) {
            proof {
                assert(s@.subrange(at as int, at + m as int)[j as int] == s@[at + j]);
                assert(s@.subrange(at as int, at + m as int) != lit@);
            }
            return false;
        }
        j += 1;
    }
    proof {
        assert(s@.subrange(at as int, at + m as int) =~= lit@);
    }
    true
}

/// Decodes a two-part packaged content string back into the module bytes
/// and the bridging bytes; absent when the string is not a packaged form of
/// base64 fields. This inverts `package_with_binding` exactly.
pub fn unpackage_with_binding(content: &str) -> (r: Option<(Vec<u8>, Vec<u8>)>)
    ensures
        r is Some ==> content_fields_of(content@) is Some,
        forall|a: Seq<u8>, bb: Seq<u8>|
            (content@ == content_of(base64_of(a), base64_of(bb)) && base64_seq(base64_of(a))
                && base64_seq(base64_of(bb))) ==> (r matches Some(p) && p.0@ == a && p.1@ == bb),
{
    let ghost s = content@;
    proof {
        reveal_strlit("{\"wasm\":\"");
        reveal_strlit("\",\"binding\":\"");
        reveal_strlit("\"}");
    }
    let n = content.unicode_len();
    if !expect_lit(content, 0, "{\"wasm\":\"") {
        proof {
            assert forall|a: Seq<u8>, bb: Seq<u8>|
                !(s == content_of(base64_of(a), base64_of(bb)) && base64_seq(base64_of(a))
                    && base64_seq(base64_of(bb))) by {
                if s == content_of(base64_of(a), base64_of(bb)) && base64_seq(base64_of(a))
                    && base64_seq(base64_of(bb)) {
                    lemma_base64_quote_free(base64_of(a));
                    lemma_base64_quote_free(base64_of(bb));
                    lemma_packaged_shape(s, base64_of(a), base64_of(bb));
                    assert(false);
                }
            }
        }
        return None;
    }
    let q1opt = find_quote(content, 9);
    let q1 = match q1opt {
        Some(j) => j,
        None => {
            proof {
                assert forall|a: Seq<u8>, bb: Seq<u8>|
                    !(s == content_of(base64_of(a), base64_of(bb)) && base64_seq(base64_of(a))
                        && base64_seq(base64_of(bb))) by {
                    if s == content_of(base64_of(a), base64_of(bb)) && base64_seq(base64_of(a))
                        && base64_seq(base64_of(bb)) {
                        lemma_base64_quote_free(base64_of(a));
                        lemma_base64_quote_free(base64_of(bb));
                        lemma_packaged_shape(s, base64_of(a), base64_of(bb));
                        assert(s[9 + base64_of(a).len() as int] == '"');
                        assert(false);
                    }
                }
            }
            return None;
        },
    };
    if !expect_lit(content, q1, "\",\"binding\":\"") {
        proof {
            assert forall|a: Seq<u8>, bb: Seq<u8>|
                !(s == content_of(base64_of(a), base64_of(bb)) && base64_seq(base64_of(a))
                    && base64_seq(base64_of(bb))) by {
                if s == content_of(base64_of(a), base64_of(bb)) && base64_seq(base64_of(a))
                    && base64_seq(base64_of(bb)) {
                    lemma_base64_quote_free(base64_of(a));
                    lemma_base64_quote_free(base64_of(bb));
                    lemma_packaged_shape(s, base64_of(a), base64_of(bb));
                    assert(q1 == 9 + base64_of(a).len() as int);
                    assert(false);
                }
            }
        }
        return None;
    }
    let q2opt = find_quote(content, q1 + 13);
    let q2 = match q2opt {
        Some(j) => j,
        None => {
            proof {
                assert forall|a: Seq<u8>, bb: Seq<u8>|
                    !(s == content_of(base64_of(a), base64_of(bb)) && base64_seq(base64_of(a))
                        && base64_seq(base64_of(bb))) by {
                    if s == content_of(base64_of(a), base64_of(bb)) && base64_seq(base64_of(a))
                        && base64_seq(base64_of(bb)) {
                        lemma_base64_quote_free(base64_of(a));
                        lemma_base64_quote_free(base64_of(bb));
                        lemma_packaged_shape(s, base64_of(a), base64_of(bb));
                        assert(q1 == 9 + base64_of(a).len() as int);
                        assert(s[22 + base64_of(a).len() as int + base64_of(bb).len() as int] == '"');
                        assert(false);
                    }
                }
            }
            return None;
        },
    };
    let lit3_ok = expect_lit(content, q2, "\"}");
    if !lit3_ok || q2 + 2 != n {
        proof {
            assert forall|a: Seq<u8>, bb: Seq<u8>|
                !(s == content_of(base64_of(a), base64_of(bb)) && base64_seq(base64_of(a))
                    && base64_seq(base64_of(bb))) by {
                if s == content_of(base64_of(a), base64_of(bb)) && base64_seq(base64_of(a))
                    && base64_seq(base64_of(bb)) {
                    lemma_base64_quote_free(base64_of(a));
                    lemma_base64_quote_free(base64_of(bb));
                    lemma_packaged_shape(s, base64_of(a), base64_of(bb));
                    assert(q1 == 9 + base64_of(a).len() as int);
                    assert(q2 == 22 + base64_of(a).len() as int + base64_of(bb).len() as int);
                    assert(false);
                }
            }
        }
        return None;
    }
    let w_str = content.substring_char(9, q1);
    let b_str = content.substring_char(q1 + 13, q2);
    proof {
        assert(quote_free(w_str@)) by {
            assert forall|k: int| 0 <= k < w_str@.len() implies w_str@[k] != '"' by {
                assert(w_str@[k] == s[9 + k]);
            }
        }
        assert(quote_free(b_str@)) by {
            assert forall|k: int| 0 <= k < b_str@.len() implies b_str@[k] != '"' by {
                assert(b_str@[k] == s[q1 + 13 + k]);
            }
        }
        let l1 = "{\"wasm\":\""@;
        let l2 = "\",\"binding\":\""@;
        let l3 = "\"}"@;
        let t = content_of(w_str@, b_str@);
        assert forall|i: int| 0 <= i < s.len() implies s[i] == t[i] by {
            if i < 9 {
                assert(s.subrange(0, 9)[i] == s[i]);
            } else if i < q1 {
                assert(w_str@[i - 9] == s[i]);
            } else if i < q1 + 13 {
                assert(s.subrange(q1 as int, q1 + 13)[i - q1] == s[i]);
            } else if i < q2 {
                assert(b_str@[i - q1 - 13] == s[i]);
            } else {
                assert(s.subrange(q2 as int, q2 + 2)[i - q2] == s[i]);
            }
        }
        assert(s =~= t);
        assert(is_packaged_pair(s, w_str@, b_str@));
    }
    let wa = base64_decode(w_str);
    let va = match wa {
        Some(v) => v,
        None => {
            proof {
                assert forall|a: Seq<u8>, bb: Seq<u8>|
                    !(s == content_of(base64_of(a), base64_of(bb)) && base64_seq(base64_of(a))
                        && base64_seq(base64_of(bb))) by {
                    if s == content_of(base64_of(a), base64_of(bb)) && base64_seq(base64_of(a))
                        && base64_seq(base64_of(bb)) {
                        lemma_base64_quote_free(base64_of(a));
                        lemma_base64_quote_free(base64_of(bb));
                        lemma_packaged_pair_unique(s, w_str@, b_str@, base64_of(a), base64_of(bb));
                        assert(w_str@ == base64_of(a));
                        assert(false);
                    }
                }
            }
            return None;
        },
    };
    let ba = base64_decode(b_str);
    let vb = match ba {
        Some(v) => v,
        None => {
            proof {
                assert forall|a: Seq<u8>, bb: Seq<u8>|
                    !(s == content_of(base64_of(a), base64_of(bb)) && base64_seq(base64_of(a))
                        && base64_seq(base64_of(bb))) by {
                    if s == content_of(base64_of(a), base64_of(bb)) && base64_seq(base64_of(a))
                        && base64_seq(base64_of(bb)) {
                        lemma_base64_quote_free(base64_of(a));
                        lemma_base64_quote_free(base64_of(bb));
                        lemma_packaged_pair_unique(s, w_str@, b_str@, base64_of(a), base64_of(bb));
                        assert(b_str@ == base64_of(bb));
                        assert(false);
                    }
                }
            }
            return None;
        },
    };
    proof {
        assert forall|a: Seq<u8>, bb: Seq<u8>|
            (s == content_of(base64_of(a), base64_of(bb)) && base64_seq(base64_of(a))
                && base64_seq(base64_of(bb))) implies va@ == a && vb@ == bb by {
            lemma_base64_quote_free(base64_of(a));
            lemma_base64_quote_free(base64_of(bb));
            lemma_packaged_pair_unique(s, w_str@, b_str@, base64_of(a), base64_of(bb));
            assert(w_str@ == base64_of(a));
            assert(b_str@ == base64_of(bb));
        }
    }
    Some((va, vb))
}

/// Packages a bare module: just its base64 text, with no surrounding
/// structure, for callers that need no bridging artifact.
pub fn package_raw(wasm: &Vec<u8>) -> (r: String)
    requires
        wasm@.len() <= usize::MAX as int / 4,
    ensures
        r@ == base64_of(wasm@),
        base64_seq(r@),
{
    base64_encode(wasm)
}

} // verus!
