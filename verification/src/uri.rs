//! `otpauth://` URIs: cleaning away metadata that other authenticators add,
//! and reading an account's fields from a URI.

use totp_rs::{Secret, TOTP};
use vstd::prelude::*;

use crate::decimal::{parse_decimal, parse_unsigned};
use crate::hotp::{algorithm_for_upper, Algorithm};
use crate::text::{
    chars_of, lowercase, optional_view, same_text, starts_with, string_from_chars, text_result,
    to_lowercase, to_uppercase, uppercase,
};

verus! {

/// A character with the Unicode `White_Space` property, the characters that
/// `char::is_whitespace` accepts.
pub open spec fn is_unicode_whitespace(c: char) -> bool {
    let u = c as u32;
    ||| 0x9 <= u <= 0xD
    ||| u == 0x20
    ||| u == 0x85
    ||| u == 0xA0
    ||| u == 0x1680
    ||| 0x2000 <= u <= 0x200A
    ||| u == 0x2028
    ||| u == 0x2029
    ||| u == 0x202F
    ||| u == 0x205F
    ||| u == 0x3000
}

/// `char::is_whitespace`.
pub fn is_whitespace(c: char) -> (r: bool)
    ensures
        r == is_unicode_whitespace(c),
{
    let u = c as u32;
    (0x9 <= u && u <= 0xD) || u == 0x20 || u == 0x85 || u == 0xA0 || u == 0x1680 || (0x2000 <= u
        && u <= 0x200A) || u == 0x2028 || u == 0x2029 || u == 0x202F || u == 0x205F || u == 0x3000
}

/// The text without its leading whitespace.
pub open spec fn trim_start(s: Seq<char>) -> Seq<char>
    decreases s.len(),
{
    if s.len() > 0 && is_unicode_whitespace(s[0]) {
        trim_start(s.drop_first())
    } else {
        s
    }
}

/// The text without its trailing whitespace.
pub open spec fn trim_end(s: Seq<char>) -> Seq<char>
    decreases s.len(),
{
    if s.len() > 0 && is_unicode_whitespace(s.last()) {
        trim_end(s.drop_last())
    } else {
        s
    }
}

/// `str::trim`: the text without leading and trailing whitespace.
pub open spec fn trim(s: Seq<char>) -> Seq<char> {
    trim_end(trim_start(s))
}

/// The text before the first `c`, or all of it where there is none.
pub open spec fn before_char(s: Seq<char>, c: char) -> Seq<char>
    decreases s.len(),
{
    if s.len() == 0 {
        s
    } else if s[0] == c {
        Seq::empty()
    } else {
        seq![s[0]] + before_char(s.drop_first(), c)
    }
}

/// `str::split`: the pieces of the text between occurrences of `c`; there is
/// always at least one piece.
pub open spec fn split_on(s: Seq<char>, c: char) -> Seq<Seq<char>>
    decreases s.len(),
{
    if s.len() == 0 {
        seq![Seq::empty()]
    } else {
        let pieces = split_on(s.drop_last(), c);
        if s.last() == c {
            pieces.push(Seq::empty())
        } else {
            pieces.update(pieces.len() - 1, pieces.last().push(s.last()))
        }
    }
}

/// The pieces joined with `sep` between them.
pub open spec fn join(pieces: Seq<Seq<char>>, sep: Seq<char>) -> Seq<char>
    decreases pieces.len(),
{
    if pieces.len() == 0 {
        Seq::empty()
    } else if pieces.len() == 1 {
        pieces[0]
    } else {
        join(pieces.drop_last(), sep) + sep + pieces.last()
    }
}

/// The query keys that a cleaned URI keeps.
pub open spec fn is_known_key(key: Seq<char>) -> bool {
    ||| key == "secret"@
    ||| key == "issuer"@
    ||| key == "algorithm"@
    ||| key == "digits"@
    ||| key == "period"@
    ||| key == "counter"@
}

/// A query parameter whose key (the text before its first `=`) is known.
pub open spec fn is_known_param(param: Seq<char>) -> bool {
    is_known_key(before_char(param, '='))
}

/// The parameters with a known key, in order.
pub open spec fn known_params(params: Seq<Seq<char>>) -> Seq<Seq<char>>
    decreases params.len(),
{
    if params.len() == 0 {
        params
    } else {
        let kept = known_params(params.drop_last());
        if is_known_param(params.last()) {
            kept.push(params.last())
        } else {
            kept
        }
    }
}

/// The cleaned form of a URI: trimmed; where it has a query, the query keeps
/// only the parameters with a known key, in order, joined with `&`.
pub open spec fn cleaned_uri(uri: Seq<char>) -> Seq<char> {
    let t = trim(uri);
    if !t.contains('?') {
        t
    } else {
        let base = before_char(t, '?');
        let query = t.subrange(base.len() as int + 1, t.len() as int);
        base + seq!['?'] + join(known_params(split_on(query, '&')), seq!['&'])
    }
}

proof fn lemma_split_on_nonempty(s: Seq<char>, c: char)
    ensures
        split_on(s, c).len() >= 1,
    decreases s.len(),
{
    if s.len() > 0 {
        lemma_split_on_nonempty(s.drop_last(), c);
    }
}

proof fn lemma_before_char_prefix(s: Seq<char>, c: char, k: int)
    requires
        0 <= k <= s.len(),
        forall|j: int| 0 <= j < k ==> s[j] != c,
        k == s.len() || s[k] == c,
    ensures
        before_char(s, c) == s.subrange(0, k),
    decreases s.len(),
{
    if s.len() > 0 && k > 0 {
        lemma_before_char_prefix(s.drop_first(), c, k - 1);
        assert(seq![s[0]] + s.drop_first().subrange(0, k - 1) =~= s.subrange(0, k));
    } else if s.len() > 0 {
        assert(s.subrange(0, k) =~= Seq::<char>::empty());
    }
}

/// Whether `s` contains `c`, and the position of its first occurrence (the
/// length where there is none).
fn first_index(s: &Vec<char>, c: char) -> (k: usize)
    ensures
        k <= s@.len(),
        forall|j: int| 0 <= j < k ==> s@[j] != c,
        k == s@.len() || s@[k as int] == c,
        before_char(s@, c) == s@.subrange(0, k as int),
        s@.contains(c) <==> k < s@.len(),
{
    let n = s.len();
    let mut k: usize = 0;
    while k < n && s[k] != c
        invariant
            n == s@.len(),
            k <= n,
            forall|j: int| 0 <= j < k ==> s@[j] != c,
        decreases n - k,
    {
        k = k + 1;
    }
    proof {
        lemma_before_char_prefix(s@, c, k as int);
        if k < n {
            assert(s@[k as int] == c);
        }
    }
    k
}

fn sub_chars(s: &Vec<char>, from: usize, to: usize) -> (r: Vec<char>)
    requires
        from <= to <= s@.len(),
    ensures
        r@ == s@.subrange(from as int, to as int),
{
    let mut r: Vec<char> = Vec::new();
    let mut i = from;
    while i < to
        invariant
            from <= i <= to <= s@.len(),
            r@ == s@.subrange(from as int, i as int),
        decreases to - i,
    {
        r.push(s[i]);
        assert(s@.subrange(from as int, i + 1) =~= s@.subrange(from as int, i as int).push(s@[i as int]));
        i = i + 1;
    }
    r
}

/// The characters of a text without leading and trailing whitespace.
pub fn trim_chars(s: &Vec<char>) -> (r: Vec<char>)
    ensures
        r@ == trim(s@),
{
    let n = s.len();
    let mut i: usize = 0;
    assert(s@.subrange(0, n as int) =~= s@);
    while i < n && is_whitespace(s[i])
        invariant
            n == s@.len(),
            i <= n,
            trim_start(s@) == trim_start(s@.subrange(i as int, n as int)),
        decreases n - i,
    {
        assert(s@.subrange(i as int, n as int).drop_first() =~= s@.subrange(i + 1, n as int));
        i = i + 1;
    }
    let ghost t = s@.subrange(i as int, n as int);
    assert(trim_start(t) == t);
    let mut j: usize = n;
    while j > i && is_whitespace(s[j - 1])
        invariant
            n == s@.len(),
            i <= j <= n,
            t == s@.subrange(i as int, n as int),
            trim_end(t) == trim_end(s@.subrange(i as int, j as int)),
        decreases j,
    {
        assert(s@.subrange(i as int, j as int).drop_last() =~= s@.subrange(i as int, j - 1));
        j = j - 1;
    }
    assert(trim_end(s@.subrange(i as int, j as int)) == s@.subrange(i as int, j as int));
    sub_chars(s, i, j)
}

/// Whether a parameter's key is one that a cleaned URI keeps.
fn known_param(param: &Vec<char>) -> (r: bool)
    ensures
        r == is_known_param(param@),
{
    let k = first_index(param, '=');
    let key = string_from_chars(&sub_chars(param, 0, k));
    same_text(key.as_str(), "secret") || same_text(key.as_str(), "issuer") || same_text(
        key.as_str(),
        "algorithm",
    ) || same_text(key.as_str(), "digits") || same_text(key.as_str(), "period") || same_text(
        key.as_str(),
        "counter",
    )
}

fn append_chars(out: &mut Vec<char>, piece: &Vec<char>)
    ensures
        final(out)@ == old(out)@ + piece@,
{
    let n = piece.len();
    for i in 0..n
        invariant
            n == piece@.len(),
            out@ == old(out)@ + piece@.subrange(0, i as int),
    {
        out.push(piece[i]);
        assert(piece@.subrange(0, i + 1) =~= piece@.subrange(0, i as int).push(piece@[i as int]));
    }
    assert(piece@.subrange(0, n as int) =~= piece@);
}

/// Appends a finished parameter to the joined text of the known parameters.
fn keep_if_known(out: &mut Vec<char>, kept: bool, param: &Vec<char>, Ghost(done): Ghost<Seq<Seq<char>>>) -> (r: bool)
    requires
        old(out)@ == join(known_params(done), seq!['&']),
        kept == (known_params(done).len() > 0),
    ensures
        final(out)@ == join(known_params(done.push(param@)), seq!['&']),
        r == (known_params(done.push(param@)).len() > 0),
{
    assert(done.push(param@).drop_last() =~= done);
    if known_param(param) {
        if kept {
            out.push('&');
        }
        append_chars(out, param);
        proof {
            let k2 = known_params(done).push(param@);
            assert(k2.drop_last() =~= known_params(done));
            if !kept {
                assert(old(out)@ =~= Seq::<char>::empty());
                assert(out@ =~= param@);
            } else {
                assert(out@ =~= join(known_params(done), seq!['&']) + seq!['&'] + param@);
            }
        }
        true
    } else {
        kept
    }
}

/// The query of a URI with only the parameters whose key is known, in order,
/// joined with `&`.
fn filter_query(query: &Vec<char>) -> (r: Vec<char>)
    ensures
        r@ == join(known_params(split_on(query@, '&')), seq!['&']),
{
    let n = query.len();
    let mut out: Vec<char> = Vec::new();
    let mut current: Vec<char> = Vec::new();
    let mut kept: bool = false;
    let ghost mut done: Seq<Seq<char>> = Seq::empty();
    assert(query@.subrange(0, 0) =~= Seq::<char>::empty());
    assert(split_on(Seq::<char>::empty(), '&').drop_last() =~= Seq::<Seq<char>>::empty());
    for i in 0..n
        invariant
            n == query@.len(),
            split_on(query@.subrange(0, i as int), '&') == done.push(current@),
            out@ == join(known_params(done), seq!['&']),
            kept == (known_params(done).len() > 0),
    {
        let c = query[i];
        let ghost prefix = query@.subrange(0, i + 1);
        assert(prefix.drop_last() =~= query@.subrange(0, i as int));
        assert(prefix.last() == c);
        if c == '&' {
            kept = keep_if_known(&mut out, kept, &current, Ghost(done));
            proof {
                done = done.push(current@);
            }
            current = Vec::new();
            assert(split_on(prefix, '&') =~= done.push(current@));
        } else {
            let ghost before = current@;
            current.push(c);
            proof {
                lemma_split_on_nonempty(query@.subrange(0, i as int), '&');
                let pieces = split_on(query@.subrange(0, i as int), '&');
                assert(pieces.last() == before);
                assert(split_on(prefix, '&') =~= done.push(current@));
            }
        }
    }
    assert(query@.subrange(0, n as int) =~= query@);
    keep_if_known(&mut out, kept, &current, Ghost(done));
    out
}

/// Cleans an `otpauth://` URI: trims it and, where it has a query, keeps only
/// the parameters `secret`, `issuer`, `algorithm`, `digits`, `period` and
/// `counter`, in their order, dropping any other metadata.
pub fn clean_otpauth_uri(uri: &str) -> (r: String)
    ensures
        r@ == cleaned_uri(uri@),
{
    let chars = chars_of(uri);
    let t = trim_chars(&chars);
    let q = first_index(&t, '?');
    if q == t.len() {
        return string_from_chars(&t);
    }
    let base = sub_chars(&t, 0, q);
    let query = sub_chars(&t, q + 1, t.len());
    let filtered = filter_query(&query);
    let mut out = base;
    out.push('?');
    append_chars(&mut out, &filtered);
    string_from_chars(&out)
}

/// The fields read from an `otpauth://` URI.
#[derive(Debug)]
pub struct ParsedUri {
    pub issuer: String,
    pub label: String,
    pub secret: String,
    pub digits: usize,
    pub period: u64,
    pub algorithm: String,
    pub otp_type: String,
    pub counter: u64,
}

/// The fields of a parsed URI: issuer, label, secret, digits, period,
/// algorithm, kind and counter.
pub type ParsedFields = (Seq<char>, Seq<char>, Seq<char>, usize, u64, Seq<char>, Seq<char>, u64);

/// The view of a parsed URI.
pub open spec fn parsed_fields(p: ParsedUri) -> ParsedFields {
    (p.issuer@, p.label@, p.secret@, p.digits, p.period, p.algorithm@, p.otp_type@, p.counter)
}

/// The view of a parse result.
pub open spec fn parse_result(r: Result<ParsedUri, String>) -> Result<ParsedFields, Seq<char>> {
    match r {
        Ok(p) => Ok(parsed_fields(p)),
        Err(e) => Err(e@),
    }
}

/// The scheme of a URL, whether it has a host, its path, and its decoded
/// query pairs in order.
pub type UrlParts = (Seq<char>, bool, Seq<char>, Seq<(Seq<char>, Seq<char>)>);

/// What `Url::parse` gives for a text: the URL's scheme, whether it has a
/// host, its path and its query pairs (form-decoded), or the text of the
/// parse error.
pub uninterp spec fn url_parse_outcome(s: Seq<char>) -> Result<UrlParts, Seq<char>>;

/// The views of key-value pairs.
pub open spec fn pair_views(pairs: Seq<(String, String)>) -> Seq<(Seq<char>, Seq<char>)> {
    pairs.map_values(|p: (String, String)| (p.0@, p.1@))
}

/// `url::Url::parse`, then the URL's `scheme()`, whether `host()` is some,
/// `path()` and `query_pairs()`; on failure the text of the `ParseError`.
#[verifier::external_body]
fn parse_url(s: &str) -> (r: Result<(String, bool, String, Vec<(String, String)>), String>)
    ensures
        match r {
            Ok((scheme, has_host, path, pairs)) => url_parse_outcome(s@) == Ok::<UrlParts, Seq<char>>(
                (scheme@, has_host, path@, pair_views(pairs@)),
            ),
            Err(e) => url_parse_outcome(s@) == Err::<UrlParts, Seq<char>>(e@),
        },
{
    match url::Url::parse(s) {
        Ok(url) => {
            let mut pairs = Vec::new();
            for (key, value) in url.query_pairs() {
                pairs.push((key.into_owned(), value.into_owned()));
            }
            Ok((url.scheme().to_string(), url.host().is_some(), url.path().to_string(), pairs))
        },
        Err(e) => Err(e.to_string()),
    }
}

/// A text that parses as an `otpauth` URL without a host, on which
/// `TOTP::from_url` unwraps the missing host and panics.
pub open spec fn is_hostless_otpauth(s: Seq<char>) -> bool {
    url_parse_outcome(s) matches Ok(parts) && parts.0 == "otpauth"@ && !parts.1
}

/// What `urlencoding::decode` gives for a text: the percent-decoded text, or
/// the text of the UTF-8 error where the decoded bytes are not UTF-8.
pub uninterp spec fn percent_decode_outcome(s: Seq<char>) -> Result<Seq<char>, Seq<char>>;

/// `urlencoding::decode`.
#[verifier::external_body]
fn percent_decode(s: &str) -> (r: Result<String, String>)
    ensures
        text_result(r) == percent_decode_outcome(s@),
{
    match urlencoding::decode(s) {
        Ok(decoded) => Ok(decoded.into_owned()),
        Err(e) => Err(e.to_string()),
    }
}

/// The fields of a TOTP URI: issuer, account name, secret bytes, digits, step
/// and hash function.
pub type TotpUrlParts = (Option<Seq<char>>, Seq<char>, Seq<u8>, usize, u64, Algorithm);

/// What `TOTP::from_url` gives for a text: the fields of the TOTP it builds,
/// or the text of its `TotpUrlError`.
pub uninterp spec fn totp_url_outcome(s: Seq<char>) -> Result<TotpUrlParts, Seq<char>>;

/// `TOTP::from_url`, read field by field; on failure the text of the
/// `TotpUrlError`. It panics on an `otpauth` URL without a host (it unwraps
/// the host to report it), so such a text is left out.
#[verifier::external_body]
fn totp_from_url(s: &str) -> (r: Result<(Option<String>, String, Vec<u8>, usize, u64, Algorithm), String>)
    requires
        !is_hostless_otpauth(s@),
    ensures
        match r {
            Ok((issuer, name, secret, digits, step, algorithm)) => totp_url_outcome(s@) == Ok::<TotpUrlParts, Seq<char>>(
                (optional_view(issuer), name@, secret@, digits, step, algorithm),
            ),
            Err(e) => totp_url_outcome(s@) == Err::<TotpUrlParts, Seq<char>>(e@),
        },
{
    match TOTP::from_url(s) {
        Ok(totp) => {
            let algorithm = match totp.algorithm {
                totp_rs::Algorithm::SHA1 => Algorithm::SHA1,
                totp_rs::Algorithm::SHA256 => Algorithm::SHA256,
                totp_rs::Algorithm::SHA512 => Algorithm::SHA512,
            };
            Ok((totp.issuer, totp.account_name, totp.secret, totp.digits, totp.step, algorithm))
        },
        Err(e) => Err(e.to_string()),
    }
}

/// The unpadded Base32 text of some bytes, as `Secret::Raw(bytes).to_encoded()`
/// writes it.
pub uninterp spec fn base32_text(bytes: Seq<u8>) -> Seq<char>;

/// `Secret::Raw(bytes).to_encoded().to_string()`.
#[verifier::external_body]
fn encode_secret(bytes: Vec<u8>) -> (text: String)
    ensures
        text@ == base32_text(bytes@),
{
    Secret::Raw(bytes).to_encoded().to_string()
}

/// The name of a hash function as its `Debug` text writes it.
pub open spec fn algorithm_name(a: Algorithm) -> Seq<char> {
    match a {
        Algorithm::SHA1 => "SHA1"@,
        Algorithm::SHA256 => "SHA256"@,
        Algorithm::SHA512 => "SHA512"@,
    }
}

/// The name written for a hash function reads back as that hash function:
/// an account storing it computes codes with the hash that was named.
pub proof fn lemma_algorithm_name_reads_back(a: Algorithm)
    ensures
        algorithm_for_upper(algorithm_name(a)) == a,
{
    reveal_strlit("SHA1");
    reveal_strlit("SHA256");
    reveal_strlit("SHA512");
    assert("SHA1"@.len() != "SHA256"@.len());
    assert("SHA1"@.len() != "SHA512"@.len());
    assert("SHA512"@[4] != "SHA256"@[4]);
}

fn algorithm_text(a: Algorithm) -> (r: String)
    ensures
        r@ == algorithm_name(a),
        algorithm_for_upper(r@) == a,
{
    proof {
        lemma_algorithm_name_reads_back(a);
    }
    match a {
        Algorithm::SHA1 => String::from_str("SHA1"),
        Algorithm::SHA256 => String::from_str("SHA256"),
        Algorithm::SHA512 => String::from_str("SHA512"),
    }
}

/// The text without its leading `c` characters.
pub open spec fn strip_leading(s: Seq<char>, c: char) -> Seq<char>
    decreases s.len(),
{
    if s.len() > 0 && s[0] == c {
        strip_leading(s.drop_first(), c)
    } else {
        s
    }
}

fn strip_leading_chars(s: &str, c: char) -> (r: String)
    ensures
        r@ == strip_leading(s@, c),
{
    let chars = chars_of(s);
    let n = chars.len();
    let mut i: usize = 0;
    assert(chars@.subrange(0, n as int) =~= chars@);
    while i < n && chars[i] == c
        invariant
            n == chars@.len(),
            i <= n,
            strip_leading(chars@, c) == strip_leading(chars@.subrange(i as int, n as int), c),
        decreases n - i,
    {
        assert(chars@.subrange(i as int, n as int).drop_first() =~= chars@.subrange(i + 1, n as int));
        i = i + 1;
    }
    string_from_chars(&sub_chars(&chars, i, n))
}

/// The query fields an HOTP URI sets: secret, issuer, digits, period,
/// algorithm and counter.
pub type QueryFields = (Seq<char>, Seq<char>, usize, u64, Seq<char>, u64);

/// One query pair applied to the fields: `secret` and `algorithm` are
/// uppercased, `digits`, `period` and `counter` parsed (falling back to six,
/// thirty and zero), `issuer` taken as it is, and other keys ignored.
pub open spec fn apply_query_pair(f: QueryFields, key: Seq<char>, value: Seq<char>) -> QueryFields {
    if key == "secret"@ {
        (uppercase(value), f.1, f.2, f.3, f.4, f.5)
    } else if key == "issuer"@ {
        (f.0, value, f.2, f.3, f.4, f.5)
    } else if key == "digits"@ {
        let d = match parse_unsigned(value, usize::MAX as nat) {
            Some(n) => n as usize,
            None => 6usize,
        };
        (f.0, f.1, d, f.3, f.4, f.5)
    } else if key == "period"@ {
        let p = match parse_unsigned(value, u64::MAX as nat) {
            Some(n) => n as u64,
            None => 30u64,
        };
        (f.0, f.1, f.2, p, f.4, f.5)
    } else if key == "algorithm"@ {
        (f.0, f.1, f.2, f.3, uppercase(value), f.5)
    } else if key == "counter"@ {
        let c = match parse_unsigned(value, u64::MAX as nat) {
            Some(n) => n as u64,
            None => 0u64,
        };
        (f.0, f.1, f.2, f.3, f.4, c)
    } else {
        f
    }
}

/// The query pairs applied in order.
pub open spec fn apply_query_pairs(f: QueryFields, pairs: Seq<(Seq<char>, Seq<char>)>) -> QueryFields
    decreases pairs.len(),
{
    if pairs.len() == 0 {
        f
    } else {
        let g = apply_query_pairs(f, pairs.drop_last());
        apply_query_pair(g, pairs.last().0, pairs.last().1)
    }
}

/// The issuer and label of a decoded HOTP path: split at the first `:`, or no
/// issuer and the whole path as the label.
pub open spec fn path_issuer_label(path: Seq<char>) -> (Seq<char>, Seq<char>) {
    if path.contains(':') {
        let issuer = before_char(path, ':');
        (issuer, path.subrange(issuer.len() as int + 1, path.len() as int))
    } else {
        (Seq::empty(), path)
    }
}

/// The value of the last `secret` query pair, or nothing where there is none.
pub open spec fn last_secret_value(pairs: Seq<(Seq<char>, Seq<char>)>) -> Seq<char>
    decreases pairs.len(),
{
    if pairs.len() == 0 {
        Seq::empty()
    } else if pairs.last().0 == "secret"@ {
        pairs.last().1
    } else {
        last_secret_value(pairs.drop_last())
    }
}

/// A cleaned HOTP URI whose URL parses and whose path decodes.
pub open spec fn hotp_uri_readable(cleaned: Seq<char>) -> bool {
    &&& is_hotp_uri(cleaned)
    &&& url_parse_outcome(cleaned) matches Ok(parts)
    &&& percent_decode_outcome(strip_leading(parts.2, '/')) is Ok
}

/// The last `secret` value in the query of a cleaned URI.
pub open spec fn hotp_uri_secret(cleaned: Seq<char>) -> Seq<char> {
    last_secret_value(url_parse_outcome(cleaned)->Ok_0.3)
}

/// The fields of an HOTP URI from its decoded path and its query pairs; a URI
/// without a secret is refused.
pub open spec fn hotp_fields(path: Seq<char>, pairs: Seq<(Seq<char>, Seq<char>)>) -> Result<ParsedFields, Seq<char>> {
    let (issuer, label) = path_issuer_label(path);
    let f = apply_query_pairs((Seq::empty(), issuer, 6usize, 30u64, "SHA1"@, 0u64), pairs);
    if f.0.len() == 0 {
        Err("No secret found in URI"@)
    } else {
        Ok((f.1, label, f.0, f.2, f.3, f.4, "hotp"@, f.5))
    }
}

/// The fields of an HOTP URI from its parsed URL.
pub open spec fn hotp_fields_of_url(path: Seq<char>, pairs: Seq<(Seq<char>, Seq<char>)>) -> Result<ParsedFields, Seq<char>> {
    match percent_decode_outcome(strip_leading(path, '/')) {
        Ok(decoded) => hotp_fields(decoded, pairs),
        Err(e) => Err("Decode error: "@ + e),
    }
}

/// The fields of a cleaned HOTP URI.
pub open spec fn hotp_uri_fields(cleaned: Seq<char>) -> Result<ParsedFields, Seq<char>> {
    match url_parse_outcome(cleaned) {
        Ok(parts) => hotp_fields_of_url(parts.2, parts.3),
        Err(e) => Err("Invalid URI: "@ + e),
    }
}

/// The fields of a TOTP URI from what `TOTP::from_url` read.
pub open spec fn totp_fields(parts: TotpUrlParts) -> ParsedFields {
    (
        match parts.0 {
            Some(issuer) => issuer,
            None => Seq::empty(),
        },
        parts.1,
        base32_text(parts.2),
        parts.3,
        parts.4,
        algorithm_name(parts.5),
        "totp"@,
        0u64,
    )
}

/// The fields of a cleaned TOTP URI.
pub open spec fn totp_uri_fields(cleaned: Seq<char>) -> Result<ParsedFields, Seq<char>> {
    match totp_url_outcome(cleaned) {
        Ok(parts) => Ok(totp_fields(parts)),
        Err(e) => Err("Invalid otpauth URI: "@ + e),
    }
}

/// A cleaned URI that names an HOTP account, in any case.
pub open spec fn is_hotp_uri(cleaned: Seq<char>) -> bool {
    let lower = lowercase(cleaned);
    let prefix = "otpauth://hotp/"@;
    prefix.len() <= lower.len() && lower.subrange(0, prefix.len() as int) == prefix
}

/// A URI on which reading the fields panics: cleaned, it is not an HOTP URI
/// and it parses as an `otpauth` URL without a host.
pub open spec fn otpauth_uri_panics(uri: Seq<char>) -> bool {
    let cleaned = cleaned_uri(uri);
    !is_hotp_uri(cleaned) && is_hostless_otpauth(cleaned)
}

/// The fields that an `otpauth://` URI gives, after cleaning.
pub open spec fn otpauth_fields(uri: Seq<char>) -> Result<ParsedFields, Seq<char>> {
    let cleaned = cleaned_uri(uri);
    if is_hotp_uri(cleaned) {
        hotp_uri_fields(cleaned)
    } else {
        totp_uri_fields(cleaned)
    }
}

/// The fields of an HOTP URI from its decoded path and its query pairs.
pub fn hotp_fields_from_path(path: &str, pairs: &Vec<(String, String)>) -> (r: Result<ParsedUri, String>)
    ensures
        parse_result(r) == hotp_fields(path@, pair_views(pairs@)),
        r is Ok <==> last_secret_value(pair_views(pairs@)).len() > 0,
{
    let path_chars = chars_of(path);
    let colon = first_index(&path_chars, ':');
    let (mut issuer, label) = if colon < path_chars.len() {
        (string_from_chars(&sub_chars(&path_chars, 0, colon)), string_from_chars(&sub_chars(&path_chars, colon + 1, path_chars.len())))
    } else {
        (String::new(), path.to_owned())
    };
    let mut secret = String::new();
    let mut digits: usize = 6;
    let mut period: u64 = 30;
    let mut algorithm = String::from_str("SHA1");
    let mut counter: u64 = 0;
    let ghost init: QueryFields = (Seq::empty(), issuer@, 6usize, 30u64, "SHA1"@, 0u64);
    let ghost views = pair_views(pairs@);
    let n = pairs.len();
    assert(views.subrange(0, 0) =~= Seq::<(Seq<char>, Seq<char>)>::empty());
    for i in 0..n
        invariant
            n == pairs@.len(),
            views == pair_views(pairs@),
            apply_query_pairs(init, views.subrange(0, i as int)) == (secret@, issuer@, digits, period, algorithm@, counter),
            secret@.len() == 0 <==> last_secret_value(views.subrange(0, i as int)).len() == 0,
    {
        let key = pairs[i].0.as_str();
        let value = pairs[i].1.as_str();
        assert(views.subrange(0, i + 1).drop_last() =~= views.subrange(0, i as int));
        assert(views[i as int] == (key@, value@));
        if same_text(key, "secret") {
            secret = to_uppercase(value);
        } else if same_text(key, "issuer") {
            issuer = value.to_owned();
        } else if same_text(key, "digits") {
            digits = match parse_decimal(value, usize::MAX as u64) {
                Some(d) => d as usize,
                None => 6,
            };
        } else if same_text(key, "period") {
            period = match parse_decimal(value, u64::MAX) {
                Some(p) => p,
                None => 30,
            };
        } else if same_text(key, "algorithm") {
            algorithm = to_uppercase(value);
        } else if same_text(key, "counter") {
            counter = match parse_decimal(value, u64::MAX) {
                Some(c) => c,
                None => 0,
            };
        }
    }
    assert(views.subrange(0, n as int) =~= views);
    if secret.unicode_len() == 0 {
        return Err(String::from_str("No secret found in URI"));
    }
    Ok(
        ParsedUri {
            issuer,
            label,
            secret,
            digits,
            period,
            algorithm,
            otp_type: String::from_str("hotp"),
            counter,
        },
    )
}

/// The fields of an HOTP URI from its URL's path and query pairs: the path
/// loses its leading `/` and is percent-decoded before it is split.
pub fn hotp_fields_from_url(path: &str, pairs: &Vec<(String, String)>) -> (r: Result<ParsedUri, String>)
    ensures
        parse_result(r) == hotp_fields_of_url(path@, pair_views(pairs@)),
        percent_decode_outcome(strip_leading(path@, '/')) is Ok ==> (r is Ok <==> last_secret_value(
            pair_views(pairs@),
        ).len() > 0),
{
    let stripped = strip_leading_chars(path, '/');
    match percent_decode(stripped.as_str()) {
        Ok(decoded) => hotp_fields_from_path(decoded.as_str(), pairs),
        Err(e) => Err(String::from_str("Decode error: ").concat(e.as_str())),
    }
}

/// The fields of a TOTP URI from what `TOTP::from_url` read: the issuer (empty
/// where there is none), the account name, the secret in Base32, digits,
/// step, the hash function's name, kind `totp` and counter zero.
pub fn totp_fields_from_parts(
    issuer: Option<String>,
    account_name: String,
    secret: Vec<u8>,
    digits: usize,
    step: u64,
    algorithm: Algorithm,
) -> (p: ParsedUri)
    ensures
        parsed_fields(p) == totp_fields((optional_view(issuer), account_name@, secret@, digits, step, algorithm)),
{
    let issuer_text = match issuer {
        Some(i) => i,
        None => String::new(),
    };
    ParsedUri {
        issuer: issuer_text,
        label: account_name,
        secret: encode_secret(secret),
        digits,
        period: step,
        algorithm: algorithm_text(algorithm),
        otp_type: String::from_str("totp"),
        counter: 0,
    }
}

/// Reads the fields of an account from an `otpauth://` URI. The URI is
/// cleaned first; an `otpauth://hotp/` URI (in any case) is read from its
/// path and query, any other through `TOTP::from_url`.
pub fn parse_otpauth_uri(uri: String) -> (r: Result<ParsedUri, String>)
    requires
        !otpauth_uri_panics(uri@),
    ensures
        parse_result(r) == otpauth_fields(uri@),
        hotp_uri_readable(cleaned_uri(uri@)) ==> (r is Ok <==> hotp_uri_secret(cleaned_uri(uri@)).len() > 0),
{
    let cleaned = clean_otpauth_uri(uri.as_str());
    let lower = to_lowercase(cleaned.as_str());
    let is_hotp = starts_with(lower.as_str(), "otpauth://hotp/");
    if is_hotp {
        match parse_url(cleaned.as_str()) {
            Ok((_, _, path, pairs)) => hotp_fields_from_url(path.as_str(), &pairs),
            Err(e) => Err(String::from_str("Invalid URI: ").concat(e.as_str())),
        }
    } else {
        match totp_from_url(cleaned.as_str()) {
            Ok((issuer, name, secret, digits, step, algorithm)) => Ok(
                totp_fields_from_parts(issuer, name, secret, digits, step, algorithm),
            ),
            Err(e) => Err(String::from_str("Invalid otpauth URI: ").concat(e.as_str())),
        }
    }
}

/// Reads the fields of an account from an `otpauth://` URI, or `None` where
/// reading them would panic: a non-HOTP URI that parses as an `otpauth` URL
/// without a host.
pub fn parse_otpauth_uri_checked(uri: String) -> (r: Option<Result<ParsedUri, String>>)
    ensures
        r is None <==> otpauth_uri_panics(uri@),
        r matches Some(x) ==> parse_result(x) == otpauth_fields(uri@),
{
    let cleaned = clean_otpauth_uri(uri.as_str());
    let lower = to_lowercase(cleaned.as_str());
    if !starts_with(lower.as_str(), "otpauth://hotp/") {
        match parse_url(cleaned.as_str()) {
            Ok((scheme, has_host, _, _)) => {
                if same_text(scheme.as_str(), "otpauth") && !has_host {
                    return None;
                }
            },
            Err(_) => {},
        }
    }
    Some(parse_otpauth_uri(uri))
}

/// The algorithm read from a TOTP URI names the hash function that
/// `TOTP::from_url` read from it.
pub proof fn lemma_parsed_totp_algorithm(uri: Seq<char>)
    ensures
        !is_hotp_uri(cleaned_uri(uri)) && otpauth_fields(uri) is Ok ==> algorithm_for_upper(
            otpauth_fields(uri)->Ok_0.5,
        ) == totp_url_outcome(cleaned_uri(uri))->Ok_0.5,
{
    if totp_url_outcome(cleaned_uri(uri)) is Ok {
        lemma_algorithm_name_reads_back(totp_url_outcome(cleaned_uri(uri))->Ok_0.5);
    }
}

/// A parsed URI is either an HOTP account with a secret, or a TOTP account
/// whose counter is zero.
pub proof fn lemma_parsed_kind(uri: Seq<char>)
    ensures
        otpauth_fields(uri) matches Ok(f) ==> (f.6 == "hotp"@ && f.2.len() > 0) || (f.6 == "totp"@ && f.7 == 0),
{
}

proof fn lemma_split_on_concat(x: Seq<char>, y: Seq<char>, c: char)
    ensures
        split_on(x + seq![c] + y, c) == split_on(x, c) + split_on(y, c),
    decreases y.len(),
{
    let xs = x + seq![c];
    if y.len() == 0 {
        assert(x + seq![c] + y =~= xs);
        assert(xs.drop_last() =~= x);
        assert(split_on(Seq::<char>::empty(), c) =~= seq![Seq::<char>::empty()]);
        assert(split_on(x, c).push(Seq::empty()) =~= split_on(x, c) + seq![Seq::<char>::empty()]);
    } else {
        let y1 = y.drop_last();
        lemma_split_on_concat(x, y1, c);
        lemma_split_on_nonempty(y1, c);
        lemma_split_on_nonempty(x, c);
        assert((x + seq![c] + y).drop_last() =~= x + seq![c] + y1);
        assert((x + seq![c] + y).last() == y.last());
        let a = split_on(x, c);
        let b = split_on(y1, c);
        if y.last() == c {
            assert((a + b).push(Seq::empty()) =~= a + b.push(Seq::empty()));
        } else {
            assert((a + b).update((a + b).len() - 1, (a + b).last().push(y.last())) =~= a + b.update(
                b.len() - 1,
                b.last().push(y.last()),
            ));
        }
    }
}

proof fn lemma_split_on_without_sep(y: Seq<char>, c: char)
    requires
        !y.contains(c),
    ensures
        split_on(y, c) == seq![y],
    decreases y.len(),
{
    if y.len() > 0 {
        let y1 = y.drop_last();
        assert(!y1.contains(c)) by {
            if y1.contains(c) {
                let k = choose|k: int| 0 <= k < y1.len() && y1[k] == c;
                assert(y[k] == c);
            }
        }
        lemma_split_on_without_sep(y1, c);
        assert(y[y.len() - 1] != c);
        assert(y1.push(y.last()) =~= y);
        assert(seq![y1].update(0, y1.push(y.last())) =~= seq![y]);
    } else {
        assert(y =~= Seq::<char>::empty());
    }
}

proof fn lemma_split_on_pieces(s: Seq<char>, c: char)
    ensures
        forall|i: int| 0 <= i < split_on(s, c).len() ==> !(#[trigger] split_on(s, c)[i]).contains(c),
    decreases s.len(),
{
    if s.len() > 0 {
        lemma_split_on_pieces(s.drop_last(), c);
        lemma_split_on_nonempty(s.drop_last(), c);
        let p = split_on(s.drop_last(), c);
        let q = split_on(s, c);
        assert forall|i: int| 0 <= i < q.len() implies !(#[trigger] q[i]).contains(c) by {
            if i < p.len() - 1 || (i == p.len() - 1 && s.last() == c) {
                assert(q[i] == p[i]);
            } else if i == p.len() - 1 {
                assert(!p[i].contains(c));
                if q[i].contains(c) {
                    let k = choose|k: int| 0 <= k < q[i].len() && q[i][k] == c;
                    if k < p[i].len() {
                        assert(p[i][k] == c);
                    }
                }
            } else {
                assert(q[i] =~= Seq::<char>::empty());
            }
        }
    }
}

proof fn lemma_known_params_from(ps: Seq<Seq<char>>, c: char)
    requires
        forall|i: int| 0 <= i < ps.len() ==> !(#[trigger] ps[i]).contains(c),
    ensures
        forall|i: int| 0 <= i < known_params(ps).len() ==> !(#[trigger] known_params(ps)[i]).contains(c)
            && is_known_param(known_params(ps)[i]),
    decreases ps.len(),
{
    if ps.len() > 0 {
        let p = ps.drop_last();
        assert forall|i: int| 0 <= i < p.len() implies !(#[trigger] p[i]).contains(c) by {
            assert(p[i] == ps[i]);
        }
        lemma_known_params_from(p, c);
        assert(!ps[ps.len() - 1].contains(c));
        let kp = known_params(p);
        let k = known_params(ps);
        assert forall|i: int| 0 <= i < k.len() implies !(#[trigger] k[i]).contains(c) && is_known_param(k[i]) by {
            if i < kp.len() {
                assert(k[i] == kp[i]);
            } else {
                assert(k[i] == ps.last());
            }
        }
    }
}

proof fn lemma_split_join(ps: Seq<Seq<char>>, c: char)
    requires
        ps.len() >= 1,
        forall|i: int| 0 <= i < ps.len() ==> !(#[trigger] ps[i]).contains(c),
    ensures
        split_on(join(ps, seq![c]), c) == ps,
    decreases ps.len(),
{
    if ps.len() == 1 {
        assert(!ps[0].contains(c));
        lemma_split_on_without_sep(ps[0], c);
        assert(seq![ps[0]] =~= ps);
    } else {
        let p = ps.drop_last();
        assert forall|i: int| 0 <= i < p.len() implies !(#[trigger] p[i]).contains(c) by {
            assert(p[i] == ps[i]);
        }
        lemma_split_join(p, c);
        lemma_split_on_concat(join(p, seq![c]), ps.last(), c);
        assert(!ps[ps.len() - 1].contains(c));
        lemma_split_on_without_sep(ps.last(), c);
        assert(p + seq![ps.last()] =~= ps);
    }
}

/// Cleaning keeps the part of the trimmed URI before its first `?`, and what
/// follows that `?` is made of known parameters only: read again, the cleaned
/// query keeps every one of its parameters.
pub proof fn lemma_cleaned_query_known(uri: Seq<char>)
    requires
        trim(uri).contains('?'),
    ensures
        ({
            let c = cleaned_uri(uri);
            let base = before_char(trim(uri), '?');
            let query = c.subrange(base.len() as int + 1, c.len() as int);
            &&& c == base + seq!['?'] + query
            &&& !base.contains('?')
            &&& query.len() > 0 ==> known_params(split_on(query, '&')) == split_on(query, '&')
            &&& query.len() > 0 ==> forall|i: int|
                0 <= i < split_on(query, '&').len() ==> is_known_param(#[trigger] split_on(query, '&')[i])
        }),
{
    let t = trim(uri);
    let base = before_char(t, '?');
    lemma_before_char(t, '?');
    let query = t.subrange(base.len() as int + 1, t.len() as int);
    let ps = split_on(query, '&');
    let kept = known_params(ps);
    let joined = join(kept, seq!['&']);
    let c = cleaned_uri(uri);
    assert(c == base + seq!['?'] + joined);
    assert(c.subrange(base.len() as int + 1, c.len() as int) =~= joined);
    if joined.len() > 0 {
        assert(kept.len() >= 1) by {
            if kept.len() == 0 {
                assert(joined =~= Seq::<char>::empty());
            }
        }
        lemma_split_on_pieces(query, '&');
        lemma_known_params_from(ps, '&');
        lemma_split_join(kept, '&');
        lemma_known_params_all_known(kept);
    }
}

proof fn lemma_before_char(s: Seq<char>, c: char)
    ensures
        !before_char(s, c).contains(c),
        before_char(s, c).len() <= s.len(),
        s.subrange(0, before_char(s, c).len() as int) == before_char(s, c),
        s.contains(c) ==> before_char(s, c).len() < s.len() && s[before_char(s, c).len() as int] == c,
    decreases s.len(),
{
    if s.len() > 0 && s[0] != c {
        let r = s.drop_first();
        lemma_before_char(r, c);
        let b = before_char(s, c);
        assert(b == seq![s[0]] + before_char(r, c));
        assert(s.subrange(0, b.len() as int) =~= b);
        if b.contains(c) {
            let k = choose|k: int| 0 <= k < b.len() && b[k] == c;
            assert(before_char(r, c)[k - 1] == c);
        }
        if s.contains(c) {
            let k = choose|k: int| 0 <= k < s.len() && s[k] == c;
            assert(r[k - 1] == c);
        }
    } else if s.len() > 0 {
        assert(s.subrange(0, 0) =~= Seq::<char>::empty());
    } else {
        assert(s.subrange(0, 0) =~= s);
    }
}

proof fn lemma_known_params_all_known(ps: Seq<Seq<char>>)
    requires
        forall|i: int| 0 <= i < ps.len() ==> is_known_param(#[trigger] ps[i]),
    ensures
        known_params(ps) == ps,
    decreases ps.len(),
{
    if ps.len() > 0 {
        let p = ps.drop_last();
        assert forall|i: int| 0 <= i < p.len() implies is_known_param(#[trigger] p[i]) by {
            assert(p[i] == ps[i]);
        }
        lemma_known_params_all_known(p);
        assert(is_known_param(ps[ps.len() - 1]));
        assert(p.push(ps.last()) =~= ps);
    }
}

/// No character of the text is whitespace.
pub open spec fn has_no_whitespace(s: Seq<char>) -> bool {
    forall|i: int| 0 <= i < s.len() ==> !is_unicode_whitespace(#[trigger] s[i])
}

proof fn lemma_trim_no_whitespace(s: Seq<char>)
    requires
        has_no_whitespace(s),
    ensures
        trim(s) == s,
{
    if s.len() > 0 {
        assert(!is_unicode_whitespace(s[0]));
        assert(!is_unicode_whitespace(s[s.len() - 1]));
    }
}

proof fn lemma_subrange_no_whitespace(s: Seq<char>, a: int, b: int)
    requires
        has_no_whitespace(s),
        0 <= a <= b <= s.len(),
    ensures
        has_no_whitespace(s.subrange(a, b)),
{
    assert forall|i: int| 0 <= i < b - a implies !is_unicode_whitespace(#[trigger] s.subrange(a, b)[i]) by {
        assert(s.subrange(a, b)[i] == s[a + i]);
    }
}

proof fn lemma_concat_no_whitespace(x: Seq<char>, y: Seq<char>)
    requires
        has_no_whitespace(x),
        has_no_whitespace(y),
    ensures
        has_no_whitespace(x + y),
{
    assert forall|i: int| 0 <= i < (x + y).len() implies !is_unicode_whitespace(#[trigger] (x + y)[i]) by {
        if i < x.len() {
            assert((x + y)[i] == x[i]);
        } else {
            assert((x + y)[i] == y[i - x.len()]);
        }
    }
}

proof fn lemma_split_no_whitespace(s: Seq<char>, c: char)
    requires
        has_no_whitespace(s),
    ensures
        forall|i: int| 0 <= i < split_on(s, c).len() ==> has_no_whitespace(#[trigger] split_on(s, c)[i]),
    decreases s.len(),
{
    if s.len() > 0 {
        let s1 = s.drop_last();
        lemma_subrange_no_whitespace(s, 0, s.len() - 1);
        assert(s.subrange(0, s.len() - 1) =~= s1);
        lemma_split_no_whitespace(s1, c);
        lemma_split_on_nonempty(s1, c);
        let p = split_on(s1, c);
        let q = split_on(s, c);
        assert(!is_unicode_whitespace(s[s.len() - 1]));
        assert forall|i: int| 0 <= i < q.len() implies has_no_whitespace(#[trigger] q[i]) by {
            if i < p.len() - 1 || (i == p.len() - 1 && s.last() == c) {
                assert(q[i] == p[i]);
            } else if i == p.len() - 1 {
                lemma_concat_no_whitespace(p[i], seq![s.last()]);
                assert(q[i] =~= p[i] + seq![s.last()]);
            } else {
                assert(q[i] =~= Seq::<char>::empty());
            }
        }
    }
}

proof fn lemma_known_params_no_whitespace(ps: Seq<Seq<char>>)
    requires
        forall|i: int| 0 <= i < ps.len() ==> has_no_whitespace(#[trigger] ps[i]),
    ensures
        forall|i: int| 0 <= i < known_params(ps).len() ==> has_no_whitespace(#[trigger] known_params(ps)[i]),
    decreases ps.len(),
{
    if ps.len() > 0 {
        let p = ps.drop_last();
        assert forall|i: int| 0 <= i < p.len() implies has_no_whitespace(#[trigger] p[i]) by {
            assert(p[i] == ps[i]);
        }
        lemma_known_params_no_whitespace(p);
        assert(has_no_whitespace(ps[ps.len() - 1]));
        let kp = known_params(p);
        let k = known_params(ps);
        assert forall|i: int| 0 <= i < k.len() implies has_no_whitespace(#[trigger] k[i]) by {
            if i < kp.len() {
                assert(k[i] == kp[i]);
            } else {
                assert(k[i] == ps.last());
            }
        }
    }
}

proof fn lemma_join_no_whitespace(ps: Seq<Seq<char>>, sep: Seq<char>)
    requires
        forall|i: int| 0 <= i < ps.len() ==> has_no_whitespace(#[trigger] ps[i]),
        has_no_whitespace(sep),
    ensures
        has_no_whitespace(join(ps, sep)),
    decreases ps.len(),
{
    if ps.len() == 1 {
        assert(has_no_whitespace(ps[0]));
    } else if ps.len() > 1 {
        let p = ps.drop_last();
        assert forall|i: int| 0 <= i < p.len() implies has_no_whitespace(#[trigger] p[i]) by {
            assert(p[i] == ps[i]);
        }
        lemma_join_no_whitespace(p, sep);
        assert(has_no_whitespace(ps[ps.len() - 1]));
        lemma_concat_no_whitespace(join(p, sep), sep);
        lemma_concat_no_whitespace(join(p, sep) + sep, ps.last());
    }
}

proof fn lemma_empty_param_unknown()
    ensures
        !is_known_param(Seq::<char>::empty()),
{
    reveal_strlit("secret");
    reveal_strlit("issuer");
    reveal_strlit("algorithm");
    reveal_strlit("digits");
    reveal_strlit("period");
    reveal_strlit("counter");
    assert(before_char(Seq::<char>::empty(), '=') =~= Seq::<char>::empty());
}

/// Cleaning a URI without whitespace a second time changes nothing.
pub proof fn lemma_clean_idempotent(uri: Seq<char>)
    requires
        has_no_whitespace(uri),
    ensures
        cleaned_uri(cleaned_uri(uri)) == cleaned_uri(uri),
{
    lemma_trim_no_whitespace(uri);
    if uri.contains('?') {
        let base = before_char(uri, '?');
        lemma_before_char(uri, '?');
        let query = uri.subrange(base.len() as int + 1, uri.len() as int);
        let ps = split_on(query, '&');
        let kept = known_params(ps);
        let joined = join(kept, seq!['&']);
        let c = cleaned_uri(uri);
        assert(c == base + seq!['?'] + joined);
        lemma_subrange_no_whitespace(uri, 0, base.len() as int);
        lemma_subrange_no_whitespace(uri, base.len() as int + 1, uri.len() as int);
        lemma_split_no_whitespace(query, '&');
        lemma_known_params_no_whitespace(ps);
        assert(has_no_whitespace(seq!['&']));
        lemma_join_no_whitespace(kept, seq!['&']);
        assert(has_no_whitespace(seq!['?']));
        lemma_concat_no_whitespace(base, seq!['?']);
        lemma_concat_no_whitespace(base + seq!['?'], joined);
        lemma_trim_no_whitespace(c);
        let n = base.len() as int;
        assert(c[n] == '?');
        assert(c.contains('?'));
        assert forall|j: int| 0 <= j < n implies c[j] != '?' by {
            assert(c[j] == base[j]);
            assert(!base.contains('?'));
        }
        lemma_before_char_prefix(c, '?', n);
        assert(c.subrange(0, n) =~= base);
        assert(c.subrange(n + 1, c.len() as int) =~= joined);
        if kept.len() == 0 {
            assert(joined =~= Seq::<char>::empty());
            lemma_empty_param_unknown();
            assert(split_on(joined, '&') =~= seq![Seq::<char>::empty()]);
            assert(split_on(joined, '&').drop_last() =~= Seq::<Seq<char>>::empty());
            assert(split_on(joined, '&').last() =~= Seq::<char>::empty());
            assert(known_params(Seq::<Seq<char>>::empty()) =~= Seq::<Seq<char>>::empty());
            assert(known_params(split_on(joined, '&')) =~= Seq::<Seq<char>>::empty());
        } else {
            lemma_split_on_pieces(query, '&');
            lemma_known_params_from(ps, '&');
            lemma_split_join(kept, '&');
            lemma_known_params_all_known(kept);
        }
    }
}

/// Appending a parameter with an unknown key to a URI that already has a
/// query changes neither its cleaned form nor the fields read from it (for
/// texts without whitespace, a key without `=` or `&`, a value without `&`).
pub proof fn lemma_unknown_param_ignored(uri: Seq<char>, key: Seq<char>, value: Seq<char>)
    requires
        uri.contains('?'),
        has_no_whitespace(uri),
        has_no_whitespace(key),
        has_no_whitespace(value),
        !is_known_key(key),
        !key.contains('='),
        !key.contains('&'),
        !value.contains('&'),
    ensures
        cleaned_uri(uri + seq!['&'] + key + seq!['='] + value) == cleaned_uri(uri),
        otpauth_fields(uri + seq!['&'] + key + seq!['='] + value) == otpauth_fields(uri),
        otpauth_uri_panics(uri + seq!['&'] + key + seq!['='] + value) == otpauth_uri_panics(uri),
{
    let param = key + seq!['='] + value;
    let w = uri + seq!['&'] + param;
    assert(w =~= uri + seq!['&'] + key + seq!['='] + value);
    assert(has_no_whitespace(seq!['&']));
    assert(has_no_whitespace(seq!['=']));
    lemma_concat_no_whitespace(key, seq!['=']);
    lemma_concat_no_whitespace(key + seq!['='], value);
    lemma_concat_no_whitespace(uri, seq!['&']);
    lemma_concat_no_whitespace(uri + seq!['&'], param);
    lemma_trim_no_whitespace(uri);
    lemma_trim_no_whitespace(w);
    let base = before_char(uri, '?');
    lemma_before_char(uri, '?');
    let n = base.len() as int;
    assert forall|j: int| 0 <= j < n implies w[j] != '?' by {
        assert(uri.subrange(0, n)[j] == uri[j]);
        assert(w[j] == uri[j]);
        assert(!base.contains('?'));
    }
    assert(w[n] == uri[n]);
    lemma_before_char_prefix(w, '?', n);
    assert(w.subrange(0, n) =~= base);
    assert(w.contains('?'));
    let query = uri.subrange(n + 1, uri.len() as int);
    assert(w.subrange(n + 1, w.len() as int) =~= query + seq!['&'] + param);
    lemma_split_on_concat(query, param, '&');
    assert(!param.contains('&')) by {
        if param.contains('&') {
            let j = choose|j: int| 0 <= j < param.len() && param[j] == '&';
            if j < key.len() {
                assert(key[j] == '&');
            } else if j > key.len() {
                assert(value[j - key.len() - 1] == '&');
            }
        }
    }
    lemma_split_on_without_sep(param, '&');
    let ps = split_on(query, '&');
    assert(ps + seq![param] =~= ps.push(param));
    assert(ps.push(param).drop_last() =~= ps);
    assert(forall|j: int| 0 <= j < key.len() ==> key[j] != '=');
    assert(param[key.len() as int] == '=');
    lemma_before_char_prefix(param, '=', key.len() as int);
    assert(param.subrange(0, key.len() as int) =~= key);
    assert(!is_known_param(param));
}

} // verus!
