use rayon::iter::{IntoParallelIterator, ParallelIterator};
use vstd::prelude::*;

verus! {

// ---------------------------------------------------------------------------
// Pattern text: whitespace, tokens, hex digits
// ---------------------------------------------------------------------------

/// The characters with the Unicode `White_Space` property: the separators
/// between the tokens of a pattern.
pub open spec fn is_whitespace(c: char) -> bool {
    ('\u{9}' <= c && c <= '\u{d}') || c == ' ' || c == '\u{85}' || c == '\u{a0}'
        || c == '\u{1680}' || ('\u{2000}' <= c && c <= '\u{200a}') || c == '\u{2028}'
        || c == '\u{2029}' || c == '\u{202f}' || c == '\u{205f}' || c == '\u{3000}'
}

/// One step of splitting a text into tokens: the tokens completed so far and
/// the token being read, after one more character.
pub open spec fn split_step(st: (Seq<Seq<char>>, Seq<char>), c: char) -> (
    Seq<Seq<char>>,
    Seq<char>,
) {
    if is_whitespace(c) {
        if st.1.len() > 0 {
            (st.0.push(st.1), Seq::empty())
        } else {
            (st.0, Seq::empty())
        }
    } else {
        (st.0, st.1.push(c))
    }
}

/// The state of splitting after reading all of `s` from the left.
pub open spec fn split_state(s: Seq<char>) -> (Seq<Seq<char>>, Seq<char>)
    decreases s.len(),
{
    if s.len() == 0 {
        (Seq::empty(), Seq::empty())
    } else {
        split_step(split_state(s.drop_last()), s.last())
    }
}

/// The maximal runs of non-whitespace characters of `s`, in order.
pub open spec fn tokens(s: Seq<char>) -> Seq<Seq<char>> {
    let st = split_state(s);
    if st.1.len() > 0 {
        st.0.push(st.1)
    } else {
        st.0
    }
}

/// The value of a hexadecimal digit of either case.
pub open spec fn hex_value(c: char) -> Option<u8> {
    if '0' <= c && c <= '9' {
        Some((c as u32 - '0' as u32) as u8)
    } else if 'a' <= c && c <= 'f' {
        Some((c as u32 - 'a' as u32 + 10) as u8)
    } else if 'A' <= c && c <= 'F' {
        Some((c as u32 - 'A' as u32 + 10) as u8)
    } else {
        None
    }
}

/// What one token stands for: a wildcard (`?` or `??`) is a placeholder byte 0
/// that is not compared, two hex digits are a byte that must match.
pub open spec fn token_entry(t: Seq<char>) -> Option<(u8, bool)> {
    if t == seq!['?'] || t == seq!['?', '?'] {
        Some((0u8, false))
    } else if t.len() == 2 && hex_value(t[0]) is Some && hex_value(t[1]) is Some {
        Some(((hex_value(t[0])->0 * 16 + hex_value(t[1])->0) as u8, true))
    } else {
        None
    }
}

/// Compiling a sequence of tokens: the pattern and the mask, one entry per
/// token, or the first token that is neither a wildcard nor a hex byte.
pub open spec fn compile_tokens(ts: Seq<Seq<char>>) -> Result<(Seq<u8>, Seq<bool>), Seq<char>>
    decreases ts.len(),
{
    if ts.len() == 0 {
        Ok((Seq::empty(), Seq::empty()))
    } else {
        match compile_tokens(ts.drop_last()) {
            Err(t) => Err(t),
            Ok((p, m)) => match token_entry(ts.last()) {
                None => Err(ts.last()),
                Some((b, f)) => Ok((p.push(b), m.push(f))),
            },
        }
    }
}

/// The tokens completed while reading a prefix of `s` come first among the
/// tokens of `s`.
pub proof fn lemma_split_prefix(s: Seq<char>, j: int)
    requires
        0 <= j <= s.len(),
    ensures
        split_state(s.take(j)).0.len() <= tokens(s).len(),
        tokens(s).take(split_state(s.take(j)).0.len() as int) == split_state(s.take(j)).0,
{
    let d = split_state(s.take(j)).0;
    lemma_split_done_grows(s, j);
    assert(tokens(s).take(split_state(s).0.len() as int) =~= split_state(s).0);
    assert(tokens(s).take(d.len() as int) =~= d);
}

proof fn lemma_split_done_grows(s: Seq<char>, j: int)
    requires
        0 <= j <= s.len(),
    ensures
        split_state(s.take(j)).0.len() <= split_state(s).0.len(),
        split_state(s).0.take(split_state(s.take(j)).0.len() as int) == split_state(s.take(j)).0,
    decreases s.len(),
{
    let d = split_state(s.take(j)).0;
    if j < s.len() {
        assert(s.drop_last().take(j) =~= s.take(j));
        lemma_split_done_grows(s.drop_last(), j);
        let prev = split_state(s.drop_last());
        assert(split_state(s).0.take(prev.0.len() as int) =~= prev.0);
        assert(split_state(s).0.take(d.len() as int) =~= d);
    } else {
        assert(s.take(j) =~= s);
        assert(split_state(s).0.take(d.len() as int) =~= d);
    }
}

/// Once a prefix of the tokens fails to compile, the whole sequence fails on
/// the same token.
pub proof fn lemma_compile_error_persists(ts: Seq<Seq<char>>, us: Seq<Seq<char>>)
    requires
        ts.len() <= us.len(),
        us.take(ts.len() as int) == ts,
        compile_tokens(ts) is Err,
    ensures
        compile_tokens(us) == compile_tokens(ts),
    decreases us.len(),
{
    if us.len() == ts.len() {
        assert(us =~= ts);
    } else {
        assert(us.drop_last().take(ts.len() as int) =~= ts);
        lemma_compile_error_persists(ts, us.drop_last());
    }
}

/// Compiling a pattern text.
pub open spec fn compile_text(s: Seq<char>) -> Result<(Seq<u8>, Seq<bool>), Seq<char>> {
    compile_tokens(tokens(s))
}

fn is_space(c: char) -> (r: bool)
    ensures
        r == is_whitespace(c),
{
    ('\u{9}' <= c && c <= '\u{d}') || c == ' ' || c == '\u{85}' || c == '\u{a0}'
        || c == '\u{1680}' || ('\u{2000}' <= c && c <= '\u{200a}') || c == '\u{2028}'
        || c == '\u{2029}' || c == '\u{202f}' || c == '\u{205f}' || c == '\u{3000}'
}

fn hex_digit(c: char) -> (r: Option<u8>)
    ensures
        r == hex_value(c),
{
    if '0' <= c && c <= '9' {
        Some((c as u32 - '0' as u32) as u8)
    } else if 'a' <= c && c <= 'f' {
        Some((c as u32 - 'a' as u32 + 10) as u8)
    } else if 'A' <= c && c <= 'F' {
        Some((c as u32 - 'A' as u32 + 10) as u8)
    } else {
        None
    }
}

/// The byte and the mask flag that one token stands for.
fn token_value(t: &Vec<char>) -> (r: Option<(u8, bool)>)
    ensures
        r == token_entry(t@),
{
    if t.len() == 1 && t[0] == '?' {
        assert(t@ =~= seq!['?']);
        return Some((0u8, false));
    }
    if t.len() == 2 && t[0] == '?' && t[1] == '?' {
        assert(t@ =~= seq!['?', '?']);
        return Some((0u8, false));
    }
    assert(t@ != seq!['?']) by {
        if t@ == seq!['?'] {
            assert(t@[0] == '?');
        }
    }
    assert(t@ != seq!['?', '?']) by {
        if t@ == seq!['?', '?'] {
            assert(t@[0] == '?' && t@[1] == '?');
        }
    }
    if t.len() != 2 {
        return None;
    }
    match (hex_digit(t[0]), hex_digit(t[1])) {
        (Some(hi), Some(lo)) => Some((hi * 16 + lo, true)),
        _ => None,
    }
}

// ---------------------------------------------------------------------------
// Masked matching
// ---------------------------------------------------------------------------

/// The signature `(pattern, mask)` matches `subject` at `offset`: the whole
/// pattern lies inside the subject there, and every byte that the mask marks
/// equals the subject's byte.
pub open spec fn matches_at(pattern: Seq<u8>, mask: Seq<bool>, subject: Seq<u8>, offset: int) -> bool {
    &&& 0 <= offset
    &&& offset + pattern.len() <= subject.len()
    &&& forall|i: int|
        0 <= i < pattern.len() && #[trigger] mask[i] ==> subject[offset + i] == pattern[i]
}

/// `found` is the outcome of a search: the lowest offset at which the
/// signature matches, or `None` where it matches nowhere.
pub open spec fn is_first_match(
    pattern: Seq<u8>,
    mask: Seq<bool>,
    subject: Seq<u8>,
    found: Option<usize>,
) -> bool {
    match found {
        Some(o) => matches_at(pattern, mask, subject, o as int) && forall|q: int|
            0 <= q < o ==> !#[trigger] matches_at(pattern, mask, subject, q),
        None => forall|q: int| !#[trigger] matches_at(pattern, mask, subject, q),
    }
}

// ---------------------------------------------------------------------------
// Types
// ---------------------------------------------------------------------------

/// A compiled masked byte pattern.
#[derive(Debug)]
pub struct Signature {
    raw_bytes: Vec<u8>,
    mask: Vec<bool>,
}

/// A pattern text held a token that is neither a wildcard nor two hex digits.
#[derive(Debug)]
pub struct MalformedSignature {
    /// The offending token.
    pub token: String,
}

/// What `Signature::new` returns for the text `s`, over the models.
pub open spec fn compile_outcome(s: Seq<char>, r: Result<Signature, MalformedSignature>) -> bool {
    match r {
        Ok(sig) => compile_text(s) == Ok::<(Seq<u8>, Seq<bool>), Seq<char>>(
            (sig.pattern_view(), sig.mask_view()),
        ),
        Err(e) => compile_text(s) == Err::<(Seq<u8>, Seq<bool>), Seq<char>>(e.token@),
    }
}

impl Signature {
    /// The bytes of the pattern, one per token.
    pub closed spec fn pattern_view(&self) -> Seq<u8> {
        self.raw_bytes@
    }

    /// Which bytes of the pattern must match (`false` for a wildcard).
    pub closed spec fn mask_view(&self) -> Seq<bool> {
        self.mask@
    }

    #[verifier::type_invariant]
    spec fn well_formed(&self) -> bool {
        self.raw_bytes@.len() == self.mask@.len()
    }

    /// Compiles a whitespace-separated pattern text such as `"48 8B ?? ?? 05"`.
    pub fn new(signature: &str) -> (r: Result<Signature, MalformedSignature>)
        ensures
            compile_outcome(signature@, r),
    {
        let n = signature.unicode_len();
        let mut raw_bytes: Vec<u8> = Vec::new();
        let mut mask: Vec<bool> = Vec::new();
        let mut token: Vec<char> = Vec::new();
        let mut start: usize = 0;
        let mut i: usize = 0;
        for c in it: signature.chars()
            invariant
                n == signature@.len(),
                it.seq() == signature@,
                i == it.index(),
                start <= i <= n,
                raw_bytes@.len() == mask@.len(),
                token@ == signature@.subrange(start as int, i as int),
                split_state(signature@.take(i as int)).1 == token@,
                compile_tokens(split_state(signature@.take(i as int)).0) == Ok::<
                    (Seq<u8>, Seq<bool>),
                    Seq<char>,
                >((raw_bytes@, mask@)),
        {
            let ghost prev = split_state(signature@.take(i as int));
            proof {
                assert(signature@.take(i + 1).drop_last() =~= signature@.take(i as int));
                assert(signature@.take(i + 1).last() == c);
                assert(split_state(signature@.take(i + 1)) == split_step(prev, c));
            }
            if is_space(c) {
                if token.len() > 0 {
                    let ghost done = prev.0.push(token@);
                    proof {
                        assert(done.drop_last() =~= prev.0);
                        assert(done.last() == token@);
                    }
                    match token_value(&token) {
                        Some((b, f)) => {
                            raw_bytes.push(b);
                            mask.push(f);
                        },
                        None => {
                            let bad = signature.substring_char(start, i).to_owned();
                            proof {
                                lemma_split_prefix(signature@, i + 1);
                                lemma_compile_error_persists(done, tokens(signature@));
                            }
                            return Err(MalformedSignature { token: bad });
                        },
                    }
                }
                token = Vec::new();
                start = i + 1;
            } else {
                token.push(c);
            }
            i = i + 1;
        }
        proof {
            assert(signature@.take(i as int) =~= signature@);
        }
        let ghost last = split_state(signature@);
        if token.len() > 0 {
            proof {
                assert(tokens(signature@).drop_last() =~= last.0);
                assert(tokens(signature@).last() == token@);
            }
            match token_value(&token) {
                Some((b, f)) => {
                    raw_bytes.push(b);
                    mask.push(f);
                },
                None => {
                    let bad = signature.substring_char(start, i).to_owned();
                    return Err(MalformedSignature { token: bad });
                },
            }
        }
        Ok(Signature { raw_bytes, mask })
    }

    /// The bytes of the pattern; 0 where the token was a wildcard.
    pub fn pattern(&self) -> (r: &[u8])
        ensures
            r@ == self.pattern_view(),
    {
        self.raw_bytes.as_slice()
    }

    /// For each byte of the pattern, whether it must match.
    pub fn mask(&self) -> (r: &[bool])
        ensures
            r@ == self.mask_view(),
    {
        self.mask.as_slice()
    }

    /// The number of tokens the signature was compiled from.
    pub fn len(&self) -> (r: usize)
        ensures
            r == self.pattern_view().len(),
            r == self.mask_view().len(),
    {
        proof {
            use_type_invariant(self);
        }
        self.raw_bytes.len()
    }

    /// Whether the signature matches `module_bytes` at `offset`.
    pub fn sig_match(&self, module_bytes: &[u8], offset: usize) -> (r: bool)
        ensures
            r == matches_at(self.pattern_view(), self.mask_view(), module_bytes@, offset as int),
    {
        proof {
            use_type_invariant(self);
        }
        let n = self.raw_bytes.len();
        if offset > module_bytes.len() || n > module_bytes.len() - offset {
            return false;
        }
        let mut i: usize = 0;
        while i < n
            invariant
                n == self.raw_bytes@.len(),
                n == self.mask@.len(),
                offset + n <= module_bytes@.len(),
                module_bytes@.len() <= usize::MAX,
                i <= n,
                forall|j: int|
                    0 <= j < i && #[trigger] self.mask@[j] ==> module_bytes@[offset + j]
                        == self.raw_bytes@[j],
            decreases n - i,
        {
            if self.mask[i] && self.raw_bytes[i] != module_bytes[offset + i] {
                return false;
            }
            i = i + 1;
        }
        true
    }

    /// The lowest offset at which the signature matches `module_bytes`, if any.
    /// An empty signature matches at offset 0.
    pub fn find(&self, module_bytes: &[u8]) -> (r: Option<usize>)
        ensures
            is_first_match(self.pattern_view(), self.mask_view(), module_bytes@, r),
    {
        let n = self.raw_bytes.len();
        if n == 0 {
            return Some(0);
        }
        if n > module_bytes.len() {
            return None;
        }
        let count = module_bytes.len() - n + 1;
        let r = first_match_in(self, module_bytes, count);
        proof {
            if r is None {
                assert forall|q: int|
                    !#[trigger] matches_at(self.pattern_view(), self.mask_view(), module_bytes@, q) by {
                    if 0 <= q < count {
                    }
                }
            }
        }
        r
    }
}

/// Relies on rayon's `ParallelIterator::find_first` on the range `0..count`:
/// it returns the sequentially first offset for which the predicate holds
/// (here `Signature::sig_match`), or `None` where it holds for none.
#[verifier::external_body]
fn first_match_in(sig: &Signature, module_bytes: &[u8], count: usize) -> (r: Option<usize>)
    ensures
        match r {
            Some(o) => o < count && matches_at(
                sig.pattern_view(),
                sig.mask_view(),
                module_bytes@,
                o as int,
            ) && forall|q: int|
                0 <= q < o ==> !#[trigger] matches_at(
                    sig.pattern_view(),
                    sig.mask_view(),
                    module_bytes@,
                    q,
                ),
            None => forall|q: int|
                0 <= q < count ==> !#[trigger] matches_at(
                    sig.pattern_view(),
                    sig.mask_view(),
                    module_bytes@,
                    q,
                ),
        },
{
    (0..count).into_par_iter().find_first(|&o| sig.sig_match(module_bytes, o))
}

} // verus!
