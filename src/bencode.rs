//! Bencode tokens, and the walks over a token stream that the metainfo and
//! tracker decoders share: skipping a value, listing a dictionary, reading
//! a number.
use vstd::prelude::*;
use vstd::utf8::{valid_utf8, decode_utf8};
use bendy::state_tracker::Token;

verus! {

/// One bencode token.
#[derive(Debug)]
pub enum BToken {
    /// `l`, the start of a list.
    List,
    /// `d`, the start of a dictionary.
    Dict,
    /// A byte string, without its length prefix.
    Bytes(Vec<u8>),
    /// The text between `i` and `e` of an integer.
    Int(Vec<u8>),
    /// `e`, the end of a list or dictionary.
    End,
}

/// A token as a value.
pub enum TokenView {
    List,
    Dict,
    Bytes(Seq<u8>),
    Int(Seq<u8>),
    End,
}

impl View for BToken {
    type V = TokenView;

    open spec fn view(&self) -> TokenView {
        match self {
            BToken::List => TokenView::List,
            BToken::Dict => TokenView::Dict,
            BToken::Bytes(v) => TokenView::Bytes(v@),
            BToken::Int(d) => TokenView::Int(d@),
            BToken::End => TokenView::End,
        }
    }
}

/// The values of a token sequence.
pub open spec fn token_views(ts: Seq<BToken>) -> Seq<TokenView> {
    ts.map_values(|t: BToken| t@)
}

/// The canonical decimal digits of `n`.
pub open spec fn decimal(n: nat) -> Seq<u8>
    decreases n,
{
    if n < 10 {
        seq![(48 + n) as u8]
    } else {
        decimal(n / 10) + seq![(48 + n % 10) as u8]
    }
}

/// A token as it is written in bencode.
pub open spec fn token_bytes(t: TokenView) -> Seq<u8> {
    match t {
        TokenView::List => seq![108u8],
        TokenView::Dict => seq![100u8],
        TokenView::End => seq![101u8],
        TokenView::Int(d) => seq![105u8] + d + seq![101u8],
        TokenView::Bytes(v) => decimal(v.len()) + seq![58u8] + v,
    }
}

/// A token sequence as it is written in bencode.
pub open spec fn tokens_bytes(ts: Seq<TokenView>) -> Seq<u8>
    decreases ts.len(),
{
    if ts.len() == 0 {
        Seq::empty()
    } else {
        tokens_bytes(ts.drop_last()) + token_bytes(ts.last())
    }
}

/// The byte offset at which token `k` starts.
pub open spec fn token_offset(ts: Seq<TokenView>, k: int) -> int {
    tokens_bytes(ts.take(k)).len() as int
}

pub proof fn lemma_tokens_bytes_split(ts: Seq<TokenView>, i: int, j: int)
    requires
        0 <= i <= j <= ts.len(),
    ensures
        tokens_bytes(ts.take(j)) == tokens_bytes(ts.take(i)) + tokens_bytes(ts.subrange(i, j)),
    decreases j - i,
{
    if i == j {
        assert(ts.subrange(i, j) =~= Seq::<TokenView>::empty());
        assert(tokens_bytes(ts.take(i)) + Seq::<u8>::empty() =~= tokens_bytes(ts.take(i)));
    } else {
        lemma_tokens_bytes_split(ts, i, j - 1);
        assert(ts.take(j).drop_last() =~= ts.take(j - 1));
        assert(ts.subrange(i, j).drop_last() =~= ts.subrange(i, j - 1));
        assert(tokens_bytes(ts.take(j)) =~= tokens_bytes(ts.take(i)) + tokens_bytes(ts.subrange(i, j)));
    }
}

/// The tokens `ts[i..j]` are written at bytes `token_offset(i)..token_offset(j)`.
pub proof fn lemma_token_range(ts: Seq<TokenView>, i: int, j: int)
    requires
        0 <= i <= j <= ts.len(),
    ensures
        token_offset(ts, i) <= token_offset(ts, j) <= tokens_bytes(ts).len(),
        tokens_bytes(ts).subrange(token_offset(ts, i), token_offset(ts, j)) == tokens_bytes(ts.subrange(i, j)),
{
    lemma_tokens_bytes_split(ts, i, j);
    lemma_tokens_bytes_split(ts, j, ts.len() as int);
    assert(ts.take(ts.len() as int) =~= ts);
    let a = tokens_bytes(ts.take(i));
    let m = tokens_bytes(ts.subrange(i, j));
    assert(tokens_bytes(ts.take(j)).subrange(a.len() as int, (a.len() + m.len()) as int) =~= m);
    assert(tokens_bytes(ts).subrange(0, tokens_bytes(ts.take(j)).len() as int) =~= tokens_bytes(ts.take(j)));
}

/// The tokens that bendy's tokenizer reads from `b`, or `None` when it
/// reports an error.
pub uninterp spec fn bendy_tokens(b: Seq<u8>) -> Option<Seq<TokenView>>;

/// Relies on bendy::decoding::Decoder::tokens: the result depends on the
/// bytes alone, and when every token decodes,
/// writing each back in bencode's canonical form gives the input exactly
/// (bendy accepts only canonical integers and length prefixes, and reads
/// the input to its end), and integer text holds only `-` and digits.
#[verifier::external_body]
pub(crate) fn bencode_tokens(b: &[u8]) -> (r: Option<Vec<BToken>>)
    ensures
        match r {
            Some(ts) => bendy_tokens(b@) == Some(token_views(ts@)),
            None => bendy_tokens(b@) is None,
        },
        r matches Some(ts) ==> tokenizes(b@, token_views(ts@)),
{
    let mut out = Vec::new();
    for t in bendy::decoding::Decoder::new(b).tokens() {
        out.push(match t.ok()? {
            Token::List => BToken::List,
            Token::Dict => BToken::Dict,
            Token::String(s) => BToken::Bytes(s.to_vec()),
            Token::Num(n) => BToken::Int(n.as_bytes().to_vec()),
            Token::End => BToken::End,
        });
    }
    Some(out)
}

/// Where the value that starts at token `i` ends (one past its last token),
/// scanning with `depth` containers open.
pub open spec fn scan(ts: Seq<TokenView>, i: int, depth: nat) -> Option<int>
    decreases ts.len() - i,
{
    if i < 0 || i >= ts.len() {
        None
    } else {
        match ts[i] {
            TokenView::List => scan(ts, i + 1, depth + 1),
            TokenView::Dict => scan(ts, i + 1, depth + 1),
            TokenView::End => if depth == 0 {
                None
            } else if depth == 1 {
                Some(i + 1)
            } else {
                scan(ts, i + 1, (depth - 1) as nat)
            },
            _ => if depth == 0 {
                Some(i + 1)
            } else {
                scan(ts, i + 1, depth)
            },
        }
    }
}

/// One past the last token of the value that starts at token `i`.
pub open spec fn value_end(ts: Seq<TokenView>, i: int) -> Option<int> {
    scan(ts, i, 0)
}

pub proof fn lemma_scan_bounds(ts: Seq<TokenView>, i: int, depth: nat)
    ensures
        scan(ts, i, depth) matches Some(e) ==> i < e <= ts.len(),
    decreases ts.len() - i,
{
    if 0 <= i < ts.len() {
        lemma_scan_bounds(ts, i + 1, depth + 1);
        lemma_scan_bounds(ts, i + 1, depth);
        if depth > 0 {
            lemma_scan_bounds(ts, i + 1, (depth - 1) as nat);
        }
    }
}

/// One past the last token of the value that starts at token `i`.
pub fn skip_value(ts: &Vec<BToken>, i: usize) -> (r: Option<usize>)
    ensures
        r matches Some(e) ==> value_end(token_views(ts@), i as int) == Some(e as int),
        r is None ==> value_end(token_views(ts@), i as int) is None,
        r matches Some(e) ==> i < e <= token_views(ts@).len(),
{
    proof {
        lemma_scan_bounds(token_views(ts@), i as int, 0);
    }
    if i >= ts.len() {
        return None;
    }
    let mut k: usize = i;
    let mut depth: usize = 0;
    while k < ts.len()
        invariant
            i <= k <= token_views(ts@).len(),
            depth <= k,
            scan(token_views(ts@), i as int, 0) == scan(token_views(ts@), k as int, depth as nat),
        decreases ts.len() - k,
    {
        match &ts[k] {
            BToken::List | BToken::Dict => {
                depth = depth + 1;
            },
            BToken::End => {
                if depth == 0 {
                    return None;
                } else if depth == 1 {
                    return Some(k + 1);
                }
                depth = depth - 1;
            },
            _ => {
                if depth == 0 {
                    return Some(k + 1);
                }
            },
        }
        k += 1;
    }
    None
}

/// A dictionary entry: the key and the token range `start..end` of its value.
pub struct DictEntry {
    pub key: Vec<u8>,
    pub start: usize,
    pub end: usize,
}

/// The view of an entry: key, first token of the value, one past its last.
pub type EntryView = (Seq<u8>, int, int);

impl View for DictEntry {
    type V = EntryView;

    open spec fn view(&self) -> EntryView {
        (self.key@, self.start as int, self.end as int)
    }
}

pub open spec fn entries_view(entries: Seq<DictEntry>) -> Seq<EntryView> {
    entries.map_values(|e: DictEntry| e@)
}

/// The entries of a dictionary whose key-value pairs start at token `k`,
/// and one past the `End` that closes it.
pub open spec fn dict_entries(ts: Seq<TokenView>, k: int) -> Option<(Seq<EntryView>, int)>
    decreases ts.len() - k,
{
    if k < 0 || k >= ts.len() {
        None
    } else {
        match ts[k] {
            TokenView::End => Some((Seq::empty(), k + 1)),
            TokenView::Bytes(key) => match value_end(ts, k + 1) {
                Some(e) => if k + 1 < e <= ts.len() {
                    match dict_entries(ts, e) {
                        Some((rest, close)) => Some((seq![(key, k + 1, e)] + rest, close)),
                        None => None,
                    }
                } else {
                    None
                },
                None => None,
            },
            _ => None,
        }
    }
}

/// The entries of the dictionary whose `d` is token `at`, when the
/// dictionary closes at token `end - 1`.
pub open spec fn dict_at(ts: Seq<TokenView>, at: int, end: int) -> Option<Seq<EntryView>> {
    if 0 <= at < ts.len() && ts[at] is Dict {
        match dict_entries(ts, at + 1) {
            Some((entries, close)) => if close == end {
                Some(entries)
            } else {
                None
            },
            None => None,
        }
    } else {
        None
    }
}

/// The value range of the last entry with key `key`.
pub open spec fn lookup(entries: Seq<EntryView>, key: Seq<u8>) -> Option<(int, int)>
    decreases entries.len(),
{
    if entries.len() == 0 {
        None
    } else if entries.last().0 == key {
        Some((entries.last().1, entries.last().2))
    } else {
        lookup(entries.drop_last(), key)
    }
}

/// Lists the dictionary whose `d` is token `at` and which closes at token
/// `end - 1`; `None` when the tokens there are no such dictionary.
pub fn read_dict(ts: &Vec<BToken>, at: usize, end: usize) -> (r: Option<Vec<DictEntry>>)
    ensures
        match r {
            Some(entries) => dict_at(token_views(ts@), at as int, end as int) == Some(entries_view(entries@)),
            None => dict_at(token_views(ts@), at as int, end as int) is None,
        },
        r matches Some(entries) ==> forall|j: int| 0 <= j < entries@.len() ==> {
            &&& at < (#[trigger] entries@[j]).start < entries@[j].end
            &&& entries@[j].end < end <= token_views(ts@).len()
        },
{
    if at >= ts.len() {
        return None;
    }
    match &ts[at] {
        BToken::Dict => {},
        _ => {
            return None;
        },
    }
    assert(token_views(ts@)[at as int] is Dict);
    let mut entries: Vec<DictEntry> = Vec::new();
    let mut k: usize = at + 1;
    let ghost target = dict_entries(token_views(ts@), at + 1);
    while k < ts.len()
        invariant
            at < k <= token_views(ts@).len(),
            token_views(ts@)[at as int] is Dict,
            target == dict_entries(token_views(ts@), at + 1),
            target == match dict_entries(token_views(ts@), k as int) {
                Some((rest, close)) => Some((entries_view(entries@) + rest, close)),
                None => None,
            },
            forall|j: int| 0 <= j < entries@.len() ==> {
                &&& at < (#[trigger] entries@[j]).start < entries@[j].end
                &&& entries@[j].end <= k
            },
        decreases ts.len() - k,
    {
        match &ts[k] {
            BToken::End => {
                assert(dict_entries(token_views(ts@), k as int) == Some((Seq::<EntryView>::empty(), k + 1)));
                assert(entries_view(entries@) + Seq::<EntryView>::empty() =~= entries_view(entries@));
                assert(target == Some((entries_view(entries@), k + 1)));
                if k + 1 == end {
                    assert(dict_at(token_views(ts@), at as int, end as int) == Some(entries_view(entries@)));
                    return Some(entries);
                } else {
                    return None;
                }
            },
            BToken::Bytes(key) => {
                match skip_value(ts, k + 1) {
                    Some(e) => {
                        let ghost old_entries = entries@;
                        entries.push(DictEntry { key: key.clone(), start: k + 1, end: e });
                        proof {
                            let item: EntryView = (key@, k + 1, e as int);
                            assert(entries_view(entries@) =~= entries_view(old_entries).push(item));
                            match dict_entries(token_views(ts@), e as int) {
                                Some((rest, close)) => {
                                    assert(seq![item] + rest =~= Seq::<EntryView>::empty().push(item) + rest);
                                    assert(entries_view(old_entries) + (seq![item] + rest)
                                        =~= entries_view(old_entries).push(item) + rest);
                                },
                                None => {},
                            }
                        }
                        k = e;
                    },
                    None => {
                        return None;
                    },
                }
            },
            _ => {
                return None;
            },
        }
    }
    None
}

/// The value range of the last entry with key `key`.
pub fn find_entry(entries: &Vec<DictEntry>, key: &[u8]) -> (r: Option<(usize, usize)>)
    ensures
        match r {
            Some((s, e)) => lookup(entries_view(entries@), key@) == Some((s as int, e as int)),
            None => lookup(entries_view(entries@), key@) is None,
        },
{
    let ghost all = entries_view(entries@);
    let mut found: Option<(usize, usize)> = None;
    let mut i: usize = 0;
    while i < entries.len()
        invariant
            i <= entries@.len(),
            all == entries_view(entries@),
            match found {
                Some((s, e)) => lookup(all.take(i as int), key@) == Some((s as int, e as int)),
                None => lookup(all.take(i as int), key@) is None,
            },
        decreases entries.len() - i,
    {
        assert(all.take(i + 1).drop_last() =~= all.take(i as int));
        if crate::bytes::bytes_equal(entries[i].key.as_slice(), key) {
            found = Some((entries[i].start, entries[i].end));
        }
        i += 1;
    }
    assert(all.take(i as int) =~= all);
    found
}

/// Whether `s` is a non-empty run of ASCII digits.
pub open spec fn is_digits(s: Seq<u8>) -> bool {
    s.len() > 0 && forall|i: int| 0 <= i < s.len() ==> 48 <= #[trigger] s[i] <= 57
}

/// The number that the ASCII digits `s` spell.
pub open spec fn digits_value(s: Seq<u8>) -> nat
    decreases s.len(),
{
    if s.len() == 0 {
        0
    } else {
        digits_value(s.drop_last()) * 10 + (s.last() - 48) as nat
    }
}

/// The non-negative integer that the text of an `Int` token holds, when it fits in a `u64`.
pub open spec fn u64_of(s: Seq<u8>) -> Option<u64> {
    if is_digits(s) && digits_value(s) <= u64::MAX {
        Some(digits_value(s) as u64)
    } else {
        None
    }
}

pub proof fn lemma_digits_value_grows(s: Seq<u8>, i: int)
    requires
        0 <= i <= s.len(),
        forall|j: int| 0 <= j < s.len() ==> 48 <= #[trigger] s[j] <= 57,
    ensures
        digits_value(s.take(i)) <= digits_value(s),
    decreases s.len() - i,
{
    if i < s.len() {
        lemma_digits_value_grows(s, i + 1);
        assert(s.take(i + 1).drop_last() =~= s.take(i));
    } else {
        assert(s.take(i) =~= s);
    }
}

/// Reads the text of an `Int` token as a `u64`.
pub fn parse_u64(s: &[u8]) -> (r: Option<u64>)
    ensures
        r == u64_of(s@),
{
    if s.len() == 0 {
        return None;
    }
    let mut v: u64 = 0;
    let mut i: usize = 0;
    while i < s.len()
        invariant
            i <= s@.len(),
            s@.len() > 0,
            forall|j: int| 0 <= j < i ==> 48 <= #[trigger] s@[j] <= 57,
            v == digits_value(s@.take(i as int)),
        decreases s.len() - i,
    {
        let c = s[i];
        assert(s@.take(i + 1).drop_last() =~= s@.take(i as int));
        if c < 48 || c > 57 {
            return None;
        }
        let d = (c - 48) as u64;
        if v > (u64::MAX - d) / 10 {
            proof {
                if is_digits(s@) {
                    lemma_digits_value_grows(s@, i + 1);
                    assert(v * 10 + d > u64::MAX) by (nonlinear_arith)
                        requires
                            v > (u64::MAX - d) / 10,
                            d <= 9,
                    ;
                }
            }
            return None;
        }
        v = v * 10 + d;
        i += 1;
    }
    assert(s@.take(i as int) =~= s@);
    Some(v)
}

pub proof fn lemma_token_offset_step(ts: Seq<TokenView>, i: int)
    requires
        0 <= i < ts.len(),
    ensures
        token_offset(ts, i + 1) == token_offset(ts, i) + token_bytes(ts[i]).len(),
{
    assert(ts.take(i + 1).drop_last() =~= ts.take(i));
}

/// The number of decimal digits of `n`.
pub fn decimal_len(n: usize) -> (r: usize)
    ensures
        r == decimal(n as nat).len(),
{
    let mut m: usize = n;
    let mut c: usize = 1;
    while m >= 10
        invariant
            1 <= c,
            c * m <= n,
            decimal(n as nat).len() == decimal(m as nat).len() + c - 1,
        decreases m,
    {
        proof {
            assert((c + 1) * (m / 10) <= c * m && c * 10 <= c * m) by (nonlinear_arith)
                requires
                    m >= 10,
                    c >= 1,
            ;
        }
        m = m / 10;
        c = c + 1;
    }
    c
}

/// The number of bytes token `t` takes in bencode.
pub fn token_width(t: &BToken) -> (r: usize)
    requires
        token_bytes(t@).len() <= usize::MAX,
    ensures
        r == token_bytes(t@).len(),
{
    match t {
        BToken::List | BToken::Dict | BToken::End => 1,
        BToken::Int(d) => d.len() + 2,
        BToken::Bytes(v) => decimal_len(v.len()) + 1 + v.len(),
    }
}

/// The byte offset at which token `k` starts.
pub fn offset_of_token(ts: &Vec<BToken>, k: usize) -> (r: usize)
    requires
        k <= token_views(ts@).len(),
        tokens_bytes(token_views(ts@)).len() <= usize::MAX,
    ensures
        r == token_offset(token_views(ts@), k as int),
{
    let mut acc: usize = 0;
    let mut i: usize = 0;
    assert(token_views(ts@).take(0) =~= Seq::<TokenView>::empty());
    while i < k
        invariant
            i <= k <= token_views(ts@).len(),
            tokens_bytes(token_views(ts@)).len() <= usize::MAX,
            acc == token_offset(token_views(ts@), i as int),
        decreases k - i,
    {
        proof {
            lemma_token_offset_step(token_views(ts@), i as int);
            lemma_token_range(token_views(ts@), i + 1, token_views(ts@).len() as int);
        }
        acc = acc + token_width(&ts[i]);
        i += 1;
    }
    acc
}

/// The bytes of the string value at token range `r`.
pub open spec fn bytes_at(ts: Seq<TokenView>, r: Option<(int, int)>) -> Option<Seq<u8>> {
    match r {
        Some((s, e)) => if 0 <= s < ts.len() && e == s + 1 {
            match ts[s] {
                TokenView::Bytes(v) => Some(v),
                _ => None,
            }
        } else {
            None
        },
        None => None,
    }
}

/// The `u64` that the integer value at token range `r` holds.
pub open spec fn u64_at(ts: Seq<TokenView>, r: Option<(int, int)>) -> Option<u64> {
    match r {
        Some((s, e)) => if 0 <= s < ts.len() && e == s + 1 {
            match ts[s] {
                TokenView::Int(d) => u64_of(d),
                _ => None,
            }
        } else {
            None
        },
        None => None,
    }
}

/// The text of the UTF-8 string value at token range `r`.
pub open spec fn text_at(ts: Seq<TokenView>, r: Option<(int, int)>) -> Option<Seq<char>> {
    match bytes_at(ts, r) {
        Some(v) => if valid_utf8(v) {
            Some(decode_utf8(v))
        } else {
            None
        },
        None => None,
    }
}

/// Relies on std::str::from_utf8: it succeeds exactly on valid UTF-8, and
/// the text then holds the characters the bytes encode.
#[verifier::external_body]
pub(crate) fn utf8_text(b: &[u8]) -> (r: Option<String>)
    ensures
        r is Some <==> valid_utf8(b@),
        r matches Some(s) ==> s@ == decode_utf8(b@),
{
    std::str::from_utf8(b).ok().map(|s| s.to_string())
}

/// Reads the string value at token range `r`.
pub fn read_bytes(ts: &Vec<BToken>, r: Option<(usize, usize)>) -> (out: Option<Vec<u8>>)
    ensures
        out matches Some(v) ==> bytes_at(token_views(ts@), opt_range(r)) == Some(v@),
        out is None ==> bytes_at(token_views(ts@), opt_range(r)) is None,
{
    match r {
        Some((s, e)) => {
            if s < ts.len() && e == s + 1 {
                match &ts[s] {
                    BToken::Bytes(v) => Some(v.clone()),
                    _ => None,
                }
            } else {
                None
            }
        },
        None => None,
    }
}

/// Reads the integer value at token range `r` as a `u64`.
pub fn read_u64(ts: &Vec<BToken>, r: Option<(usize, usize)>) -> (out: Option<u64>)
    ensures
        out == u64_at(token_views(ts@), opt_range(r)),
{
    match r {
        Some((s, e)) => {
            if s < ts.len() && e == s + 1 {
                match &ts[s] {
                    BToken::Int(d) => parse_u64(d.as_slice()),
                    _ => None,
                }
            } else {
                None
            }
        },
        None => None,
    }
}

/// Reads the UTF-8 string value at token range `r`.
pub fn read_text(ts: &Vec<BToken>, r: Option<(usize, usize)>) -> (out: Option<String>)
    ensures
        out matches Some(t) ==> text_at(token_views(ts@), opt_range(r)) == Some(t@),
        out is None ==> text_at(token_views(ts@), opt_range(r)) is None,
{
    match read_bytes(ts, r) {
        Some(v) => utf8_text(v.as_slice()),
        None => None,
    }
}

/// A range of token indices as integers.
pub open spec fn opt_range(r: Option<(usize, usize)>) -> Option<(int, int)> {
    match r {
        Some((s, e)) => Some((s as int, e as int)),
        None => None,
    }
}

pub proof fn lemma_dict_entries_close(ts: Seq<TokenView>, k: int)
    ensures
        dict_entries(ts, k) matches Some((_, close)) ==> k < close <= ts.len() && ts[close - 1] is End,
    decreases ts.len() - k,
{
    if 0 <= k < ts.len() {
        if let TokenView::Bytes(_) = ts[k] {
            if let Some(e) = value_end(ts, k + 1) {
                if k + 1 < e <= ts.len() {
                    lemma_dict_entries_close(ts, e);
                }
            }
        }
    }
}

/// A dictionary spanning tokens `s..e` is written from a `d` to an `e`.
pub proof fn lemma_info_delimiters(ts: Seq<TokenView>, s: int, e: int)
    requires
        dict_at(ts, s, e) is Some,
    ensures
        0 <= s < e <= ts.len(),
        token_offset(ts, s) < token_offset(ts, e) <= tokens_bytes(ts).len(),
        tokens_bytes(ts)[token_offset(ts, s)] == 100u8,
        tokens_bytes(ts)[token_offset(ts, e) - 1] == 101u8,
{
    lemma_dict_entries_close(ts, s + 1);
    let x = ts.subrange(s, e);
    lemma_token_range(ts, s, e);
    lemma_tokens_bytes_split(x, 1, x.len() as int);
    assert(x.take(x.len() as int) =~= x);
    assert(x.take(1).drop_last() =~= Seq::<TokenView>::empty());
    assert(x.take(1).last() == ts[s]);
    assert(ts[s] is Dict);
    assert(tokens_bytes(Seq::<TokenView>::empty()) =~= Seq::<u8>::empty());
    assert(tokens_bytes(x.take(1)) =~= seq![100u8]);
    assert(x.last() is End);
    assert(tokens_bytes(x) == tokens_bytes(x.drop_last()) + seq![101u8]);
    let whole = tokens_bytes(ts);
    let start = token_offset(ts, s);
    let end = token_offset(ts, e);
    assert(whole.subrange(start, end) == tokens_bytes(x));
    assert(whole.subrange(start, end)[0] == whole[start]);
    assert(whole.subrange(start, end)[end - start - 1] == whole[end - 1]);
}

/// The value ranges of a list whose items start at token `k`, and one past
/// the `End` that closes it.
pub open spec fn list_items(ts: Seq<TokenView>, k: int) -> Option<(Seq<(int, int)>, int)>
    decreases ts.len() - k,
{
    if k < 0 || k >= ts.len() {
        None
    } else {
        match ts[k] {
            TokenView::End => Some((Seq::empty(), k + 1)),
            _ => match value_end(ts, k) {
                Some(e) => if k < e <= ts.len() {
                    match list_items(ts, e) {
                        Some((rest, close)) => Some((seq![(k, e)] + rest, close)),
                        None => None,
                    }
                } else {
                    None
                },
                None => None,
            },
        }
    }
}

/// The item ranges of the list whose `l` is token `at`, when the list
/// closes at token `end - 1`.
pub open spec fn list_at(ts: Seq<TokenView>, at: int, end: int) -> Option<Seq<(int, int)>> {
    if 0 <= at < ts.len() && ts[at] is List {
        match list_items(ts, at + 1) {
            Some((items, close)) => if close == end {
                Some(items)
            } else {
                None
            },
            None => None,
        }
    } else {
        None
    }
}

pub open spec fn ranges_view(r: Seq<(usize, usize)>) -> Seq<(int, int)> {
    r.map_values(|p: (usize, usize)| (p.0 as int, p.1 as int))
}

/// Lists the item ranges of the list whose `l` is token `at` and which
/// closes at token `end - 1`.
pub fn read_list(ts: &Vec<BToken>, at: usize, end: usize) -> (r: Option<Vec<(usize, usize)>>)
    ensures
        match r {
            Some(items) => list_at(token_views(ts@), at as int, end as int) == Some(ranges_view(items@)),
            None => list_at(token_views(ts@), at as int, end as int) is None,
        },
{
    if at >= ts.len() {
        return None;
    }
    match &ts[at] {
        BToken::List => {},
        _ => {
            return None;
        },
    }
    let mut items: Vec<(usize, usize)> = Vec::new();
    let mut k: usize = at + 1;
    let ghost target = list_items(token_views(ts@), at + 1);
    while k < ts.len()
        invariant
            at < k <= token_views(ts@).len(),
            token_views(ts@)[at as int] is List,
            target == list_items(token_views(ts@), at + 1),
            target == match list_items(token_views(ts@), k as int) {
                Some((rest, close)) => Some((ranges_view(items@) + rest, close)),
                None => None,
            },
        decreases ts.len() - k,
    {
        match &ts[k] {
            BToken::End => {
                assert(list_items(token_views(ts@), k as int) == Some((Seq::<(int, int)>::empty(), k + 1)));
                assert(ranges_view(items@) + Seq::<(int, int)>::empty() =~= ranges_view(items@));
                if k + 1 == end {
                    return Some(items);
                } else {
                    return None;
                }
            },
            _ => {
                match skip_value(ts, k) {
                    Some(e) => {
                        let ghost old_items = items@;
                        items.push((k, e));
                        proof {
                            let item: (int, int) = (k as int, e as int);
                            assert(ranges_view(items@) =~= ranges_view(old_items).push(item));
                            match list_items(token_views(ts@), e as int) {
                                Some((rest, close)) => {
                                    assert(ranges_view(old_items) + (seq![item] + rest)
                                        =~= ranges_view(old_items).push(item) + rest);
                                },
                                None => {},
                            }
                        }
                        k = e;
                    },
                    None => {
                        return None;
                    },
                }
            },
        }
    }
    None
}

/// Integer text as the tokenizer hands it out: signs and digits only.
pub open spec fn int_text(d: Seq<u8>) -> bool {
    forall|i: int| 0 <= i < d.len() ==> (#[trigger] d[i] == 45 || 48 <= d[i] <= 57)
}

/// Every integer token holds only signs and digits.
pub open spec fn clean_tokens(ts: Seq<TokenView>) -> bool {
    forall|k: int| 0 <= k < ts.len() ==> (#[trigger] ts[k] matches TokenView::Int(d) ==> int_text(d))
}

/// `ts` is a tokenization of `b`.
pub open spec fn tokenizes(b: Seq<u8>, ts: Seq<TokenView>) -> bool {
    clean_tokens(ts) && tokens_bytes(ts) == b
}

/// The tokenization of `b`, where there is one (it is then unique).
pub open spec fn tokens_of(b: Seq<u8>) -> Seq<TokenView> {
    choose|ts: Seq<TokenView>| tokenizes(b, ts)
}

pub proof fn lemma_decimal_digits(n: nat)
    ensures
        decimal(n).len() >= 1,
        forall|i: int| 0 <= i < decimal(n).len() ==> 48 <= #[trigger] decimal(n)[i] <= 57,
        digits_value(decimal(n)) == n,
    decreases n,
{
    if n >= 10 {
        lemma_decimal_digits(n / 10);
        let d = decimal(n);
        assert(d.drop_last() =~= decimal(n / 10));
        assert(d.last() == (48 + n % 10) as u8);
        assert((n / 10) * 10 + n % 10 == n) by (nonlinear_arith);
    } else {
        assert(decimal(n).drop_last() =~= Seq::<u8>::empty());
        assert(digits_value(Seq::<u8>::empty()) == 0);
    }
}

pub proof fn lemma_tokens_bytes_front(ts: Seq<TokenView>)
    requires
        ts.len() > 0,
    ensures
        tokens_bytes(ts) == token_bytes(ts[0]) + tokens_bytes(ts.drop_first()),
{
    lemma_tokens_bytes_split(ts, 1, ts.len() as int);
    assert(ts.take(ts.len() as int) =~= ts);
    assert(ts.take(1).drop_last() =~= Seq::<TokenView>::empty());
    assert(ts.take(1).last() == ts[0]);
    assert(tokens_bytes(Seq::<TokenView>::empty()) =~= Seq::<u8>::empty());
    assert(tokens_bytes(ts.take(1)) =~= token_bytes(ts[0]));
    assert(ts.subrange(1, ts.len() as int) =~= ts.drop_first());
}

/// The first byte of a token tells its kind.
pub proof fn lemma_token_first_byte(t: TokenView)
    ensures
        token_bytes(t).len() >= 1,
        (token_bytes(t)[0] == 108u8) == (t is List),
        (token_bytes(t)[0] == 100u8) == (t is Dict),
        (token_bytes(t)[0] == 101u8) == (t is End),
        (token_bytes(t)[0] == 105u8) == (t is Int),
        (48 <= token_bytes(t)[0] <= 57) == (t is Bytes),
{
    if let TokenView::Bytes(v) = t {
        lemma_decimal_digits(v.len());
        assert(token_bytes(t)[0] == decimal(v.len())[0]);
    }
}

/// The canonical encoding of clean tokens can be read back in one way only.
pub proof fn lemma_tokens_unique(t1: Seq<TokenView>, t2: Seq<TokenView>)
    requires
        clean_tokens(t1),
        clean_tokens(t2),
        tokens_bytes(t1) == tokens_bytes(t2),
    ensures
        t1 == t2,
    decreases t1.len(),
{
    if t1.len() == 0 || t2.len() == 0 {
        if t1.len() > 0 {
            lemma_tokens_bytes_front(t1);
            lemma_token_first_byte(t1[0]);
        }
        if t2.len() > 0 {
            lemma_tokens_bytes_front(t2);
            lemma_token_first_byte(t2[0]);
        }
        assert(t1 =~= t2);
    } else {
        lemma_tokens_bytes_front(t1);
        lemma_tokens_bytes_front(t2);
        lemma_token_first_byte(t1[0]);
        lemma_token_first_byte(t2[0]);
        let bs = tokens_bytes(t1);
        let a1 = token_bytes(t1[0]);
        let a2 = token_bytes(t2[0]);
        assert(bs[0] == a1[0] && bs[0] == a2[0]);
        match (t1[0], t2[0]) {
            (TokenView::Int(d1), TokenView::Int(d2)) => {
                assert(int_text(d1) && int_text(d2)) by {
                    assert(t1[0] matches TokenView::Int(d) ==> int_text(d));
                    assert(t2[0] matches TokenView::Int(d) ==> int_text(d));
                }
                if d1.len() < d2.len() {
                    assert(bs[1 + d1.len() as int] == a1[1 + d1.len() as int]);
                    assert(bs[1 + d1.len() as int] == a2[1 + d1.len() as int]);
                    assert(a2[1 + d1.len() as int] == d2[d1.len() as int]);
                    assert(false);
                }
                if d2.len() < d1.len() {
                    assert(bs[1 + d2.len() as int] == a1[1 + d2.len() as int]);
                    assert(bs[1 + d2.len() as int] == a2[1 + d2.len() as int]);
                    assert(a1[1 + d2.len() as int] == d1[d2.len() as int]);
                    assert(false);
                }
                assert(d1 =~= bs.subrange(1, 1 + d1.len() as int));
                assert(d2 =~= bs.subrange(1, 1 + d2.len() as int));
            },
            (TokenView::Bytes(v1), TokenView::Bytes(v2)) => {
                let pre1 = decimal(v1.len());
                let pre2 = decimal(v2.len());
                lemma_decimal_digits(v1.len());
                lemma_decimal_digits(v2.len());
                if pre1.len() < pre2.len() {
                    assert(bs[pre1.len() as int] == a1[pre1.len() as int]);
                    assert(bs[pre1.len() as int] == a2[pre1.len() as int]);
                    assert(a2[pre1.len() as int] == pre2[pre1.len() as int]);
                    assert(false);
                }
                if pre2.len() < pre1.len() {
                    assert(bs[pre2.len() as int] == a1[pre2.len() as int]);
                    assert(bs[pre2.len() as int] == a2[pre2.len() as int]);
                    assert(a1[pre2.len() as int] == pre1[pre2.len() as int]);
                    assert(false);
                }
                assert(pre1 =~= bs.subrange(0, pre1.len() as int));
                assert(pre2 =~= bs.subrange(0, pre2.len() as int));
                assert(v1.len() == v2.len());
                assert(v1 =~= bs.subrange(pre1.len() as int + 1, (pre1.len() + 1 + v1.len()) as int));
                assert(v2 =~= bs.subrange(pre2.len() as int + 1, (pre2.len() + 1 + v2.len()) as int));
            },
            _ => {},
        }
        assert(t1[0] == t2[0]);
        assert(a1 == a2);
        let r1 = t1.drop_first();
        let r2 = t2.drop_first();
        assert(tokens_bytes(r1) =~= bs.subrange(a1.len() as int, bs.len() as int));
        assert(tokens_bytes(r2) =~= bs.subrange(a2.len() as int, bs.len() as int));
        assert(clean_tokens(r1)) by {
            assert forall|k: int| 0 <= k < r1.len() implies (#[trigger] r1[k] matches TokenView::Int(d) ==> int_text(d)) by {
                assert(r1[k] == t1[k + 1]);
            }
        }
        assert(clean_tokens(r2)) by {
            assert forall|k: int| 0 <= k < r2.len() implies (#[trigger] r2[k] matches TokenView::Int(d) ==> int_text(d)) by {
                assert(r2[k] == t2[k + 1]);
            }
        }
        lemma_tokens_unique(r1, r2);
        assert forall|k: int| 0 <= k < t1.len() implies t1[k] == t2[k] by {
            if k > 0 {
                assert(t1[k] == r1[k - 1]);
                assert(t2[k] == r2[k - 1]);
            }
        }
        assert(t1 =~= t2);
    }
}

/// A tokenization of `b` is the tokenization of `b`.
pub proof fn lemma_tokens_of(b: Seq<u8>, ts: Seq<TokenView>)
    requires
        tokenizes(b, ts),
    ensures
        tokens_of(b) == ts,
{
    let c = tokens_of(b);
    assert(tokenizes(b, c));
    lemma_tokens_unique(c, ts);
}

} // verus!
