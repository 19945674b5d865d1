//! The keyword-shift (Vigenere) cipher: a modular letter shift keyed by a
//! repeating alphabetic keyword. Alphabetic bytes are shifted within their
//! own case; every other byte passes through unchanged and does not advance
//! the key. Encoding and decoding are exact inverses.

use vstd::prelude::*;
use vstd::arithmetic::div_mod::{
    lemma_add_mod_noop, lemma_mod_add_multiples_vanish, lemma_small_mod,
};
use vstd::string::{StrSliceExecFns, StringExecFns};
use crate::args::{opt_view, starts_dash, str_eq, ParseIssue};
use crate::text::{byte_is_alpha, is_alpha, is_lower, is_upper, split_lines, split_lines_spec, to_lower_byte};

verus! {

/// How a cipher run can fail: a flag that is not recognised, a file that
/// cannot be read or written (the message carried along), a request for
/// help, a missing file argument, or a keyword that is not purely
/// alphabetic (also raised when a decode is declined at the prompt).
#[derive(Debug)]
pub enum CryptorErr {
    UnExpectedArg(String),
    FileError(String),
    Help,
    NoFiles,
    InvalidKey(String),
}

impl CryptorErr {
    /// The rendered message, as the tool reports it.
    pub fn message(&self) -> (r: String)
        ensures
            r@ == match self {
                CryptorErr::UnExpectedArg(s) => "unexpected arg: "@ + s@,
                CryptorErr::FileError(s) => "error with file: "@ + s@,
                CryptorErr::Help => "helping!"@,
                CryptorErr::NoFiles => "no file to crypy/decrypt"@,
                CryptorErr::InvalidKey(s) => "invalid keyword: "@ + s@,
            },
    {
        match self {
            CryptorErr::UnExpectedArg(s) => "unexpected arg: ".to_owned().concat(s.as_str()),
            CryptorErr::FileError(s) => "error with file: ".to_owned().concat(s.as_str()),
            CryptorErr::Help => "helping!".to_owned(),
            CryptorErr::NoFiles => "no file to crypy/decrypt".to_owned(),
            CryptorErr::InvalidKey(s) => "invalid keyword: ".to_owned().concat(s.as_str()),
        }
    }
}

/// `c` is an ASCII letter.
pub open spec fn char_alpha(c: char) -> bool {
    (97 <= c as u32 && c as u32 <= 122) || (65 <= c as u32 && c as u32 <= 90)
}

/// Every character of `s` is an ASCII letter.
pub open spec fn all_alpha_chars(s: Seq<char>) -> bool {
    forall|i: int| 0 <= i < s.len() ==> char_alpha(s[i])
}

/// A usable cipher key: at least one byte, all of them ASCII letters.
pub open spec fn key_ok(key: Seq<u8>) -> bool {
    key.len() >= 1 && forall|i: int| 0 <= i < key.len() ==> is_alpha(key[i])
}

/// The case base of an alphabetic byte: `'A'` for upper case, `'a'`
/// otherwise.
pub open spec fn base_of(b: u8) -> u8 {
    if is_upper(b) {
        65
    } else {
        97
    }
}

/// The shift amount taken from the key after `n` alphabetic bytes have
/// been processed: the offset of the key letter at position `n` modulo the
/// key length, counted case-insensitively from `'a'`.
pub open spec fn key_shift(key: Seq<u8>, n: nat) -> int
    recommends
        key_ok(key),
{
    to_lower_byte(key[(n % key.len()) as int]) - 97
}

/// One byte encoded with shift `k`: an alphabetic byte moves forward by
/// `k` places within its own alphabet; any other byte is unchanged.
pub open spec fn enc_byte(b: u8, k: int) -> u8 {
    if is_alpha(b) {
        (((b - base_of(b) + k) % 26) + base_of(b)) as u8
    } else {
        b
    }
}

/// One byte decoded with shift `k`: the inverse movement of [`enc_byte`].
pub open spec fn dec_byte(b: u8, k: int) -> u8 {
    if is_alpha(b) {
        (((b - base_of(b) + 26 - k) % 26) + base_of(b)) as u8
    } else {
        b
    }
}

/// How many of the bytes of `s` are ASCII letters.
pub open spec fn alpha_count(s: Seq<u8>) -> nat
    decreases s.len(),
{
    if s.len() == 0 {
        0
    } else {
        alpha_count(s.drop_last()) + if is_alpha(s.last()) {
            1nat
        } else {
            0nat
        }
    }
}

/// `text` encoded under `key`: byte `i` is shifted by the key letter
/// selected by the number of alphabetic bytes before position `i`.
pub open spec fn crypt_spec(text: Seq<u8>, key: Seq<u8>) -> Seq<u8> {
    Seq::new(text.len(), |i: int| enc_byte(text[i], key_shift(key, alpha_count(text.take(i)))))
}

/// `text` decoded under `key`: the inverse of [`crypt_spec`].
pub open spec fn decrypt_spec(text: Seq<u8>, key: Seq<u8>) -> Seq<u8> {
    Seq::new(text.len(), |i: int| dec_byte(text[i], key_shift(key, alpha_count(text.take(i)))))
}

proof fn lemma_mod26(x: int)
    requires
        0 <= x < 52,
    ensures
        x % 26 == if x < 26 {
            x
        } else {
            x - 26
        },
{
    if x < 26 {
        lemma_small_mod(x as nat, 26);
    } else {
        lemma_mod_add_multiples_vanish(x - 26, 26);
        lemma_small_mod((x - 26) as nat, 26);
    }
}

/// A valid key always yields a shift between 0 and 25.
pub proof fn lemma_key_shift_range(key: Seq<u8>, n: nat)
    requires
        key_ok(key),
    ensures
        0 <= key_shift(key, n) < 26,
{
    assert(n % key.len() < key.len());
}

/// Encoding and decoding a single byte are inverse, and neither moves a
/// byte out of its case class.
pub proof fn lemma_byte_cases(b: u8, k: int)
    requires
        0 <= k < 26,
    ensures
        dec_byte(enc_byte(b, k), k) == b,
        is_lower(enc_byte(b, k)) == is_lower(b),
        is_upper(enc_byte(b, k)) == is_upper(b),
        is_alpha(enc_byte(b, k)) == is_alpha(b),
        !is_alpha(b) ==> enc_byte(b, k) == b,
        is_lower(dec_byte(b, k)) == is_lower(b),
        is_upper(dec_byte(b, k)) == is_upper(b),
        is_alpha(dec_byte(b, k)) == is_alpha(b),
        !is_alpha(b) ==> dec_byte(b, k) == b,
{
    if is_alpha(b) {
        let base = base_of(b) as int;
        let x = b - base;
        lemma_mod26(x + k);
        lemma_mod26(x + 26 - k);
        let e = enc_byte(b, k);
        assert(e == (x + k) % 26 + base);
        lemma_mod26((e - base) + 26 - k);
        let d = dec_byte(b, k);
        lemma_mod26((d - base) + k);
    }
}

/// Appending one byte to a sequence raises its letter count exactly when
/// that byte is a letter.
pub proof fn lemma_alpha_count_take(s: Seq<u8>, i: int)
    requires
        0 <= i < s.len(),
    ensures
        alpha_count(s.take(i + 1)) == alpha_count(s.take(i)) + if is_alpha(s[i]) {
            1nat
        } else {
            0nat
        },
{
    assert(s.take(i + 1).drop_last() =~= s.take(i));
    assert(s.take(i + 1).last() == s[i]);
}

proof fn lemma_inc_mod(a: nat, m: nat)
    requires
        m >= 1,
    ensures
        ((a % m) + 1) % m == (a + 1) % m,
{
    lemma_add_mod_noop(a as int, 1, m as int);
    if m == 1 {
        assert(a % m < m);
        assert(1nat % m == 0);
    } else {
        lemma_small_mod(1, m);
    }
}

/// Encoding leaves the letter count of every prefix unchanged.
proof fn lemma_counts_match(text: Seq<u8>, key: Seq<u8>, i: int)
    requires
        key_ok(key),
        0 <= i <= text.len(),
    ensures
        alpha_count(crypt_spec(text, key).take(i)) == alpha_count(text.take(i)),
    decreases i,
{
    let c = crypt_spec(text, key);
    if i > 0 {
        lemma_counts_match(text, key, i - 1);
        lemma_alpha_count_take(text, i - 1);
        lemma_alpha_count_take(c, i - 1);
        lemma_key_shift_range(key, alpha_count(text.take(i - 1)));
        lemma_byte_cases(text[i - 1], key_shift(key, alpha_count(text.take(i - 1))));
    }
}

/// Round trip: decoding an encoded text under the same key restores the
/// text exactly, for every byte sequence and every alphabetic key.
pub proof fn lemma_round_trip(text: Seq<u8>, key: Seq<u8>)
    requires
        key_ok(key),
    ensures
        decrypt_spec(crypt_spec(text, key), key) == text,
{
    let c = crypt_spec(text, key);
    let d = decrypt_spec(c, key);
    assert forall|i: int| 0 <= i < text.len() implies d[i] == text[i] by {
        lemma_counts_match(text, key, i);
        let k = key_shift(key, alpha_count(text.take(i)));
        lemma_key_shift_range(key, alpha_count(text.take(i)));
        lemma_byte_cases(text[i], k);
    }
    assert(d =~= text);
}

/// Case preservation: neither encoding nor decoding changes the case of an
/// alphabetic byte, and every non-alphabetic byte keeps its identity.
pub proof fn lemma_case_preserved(text: Seq<u8>, key: Seq<u8>)
    requires
        key_ok(key),
    ensures
        crypt_spec(text, key).len() == text.len(),
        decrypt_spec(text, key).len() == text.len(),
        forall|i: int|
            0 <= i < text.len() ==> is_lower(#[trigger] crypt_spec(text, key)[i]) == is_lower(
                text[i],
            ) && is_upper(crypt_spec(text, key)[i]) == is_upper(text[i]) && (!is_alpha(text[i])
                ==> crypt_spec(text, key)[i] == text[i]),
        forall|i: int|
            0 <= i < text.len() ==> is_lower(#[trigger] decrypt_spec(text, key)[i]) == is_lower(
                text[i],
            ) && is_upper(decrypt_spec(text, key)[i]) == is_upper(text[i]) && (!is_alpha(text[i])
                ==> decrypt_spec(text, key)[i] == text[i]),
{
    assert forall|i: int|
        0 <= i < text.len() implies is_lower(#[trigger] crypt_spec(text, key)[i]) == is_lower(
        text[i],
    ) && is_upper(crypt_spec(text, key)[i]) == is_upper(text[i]) && (!is_alpha(text[i])
        ==> crypt_spec(text, key)[i] == text[i]) by {
        lemma_key_shift_range(key, alpha_count(text.take(i)));
        lemma_byte_cases(text[i], key_shift(key, alpha_count(text.take(i))));
    }
    assert forall|i: int|
        0 <= i < text.len() implies is_lower(#[trigger] decrypt_spec(text, key)[i]) == is_lower(
        text[i],
    ) && is_upper(decrypt_spec(text, key)[i]) == is_upper(text[i]) && (!is_alpha(text[i])
        ==> decrypt_spec(text, key)[i] == text[i]) by {
        lemma_key_shift_range(key, alpha_count(text.take(i)));
        lemma_byte_cases(text[i], key_shift(key, alpha_count(text.take(i))));
    }
}

/// The outcome of folding the cipher tool's argument list, one argument
/// at a time, over the partial configuration built so far: the optional
/// file name, the optional keyword, the direction, and the overwrite
/// consent.
pub open spec fn crypt_parse_from(
    args: Seq<Seq<char>>,
    i: int,
    fname: Option<Seq<char>>,
    kword: Option<Seq<char>>,
    mode: bool,
    wa: bool,
) -> Result<(Option<Seq<char>>, Option<Seq<char>>, bool, bool), ParseIssue>
    decreases args.len() - i,
{
    if i < 0 || i >= args.len() {
        Ok((fname, kword, mode, wa))
    } else {
        let a = args[i];
        if a.len() > 0 && a[0] == '-' {
            if a == "-c"@ || a == "--crypt"@ {
                crypt_parse_from(args, i + 1, fname, kword, true, wa)
            } else if a == "-d"@ || a == "--decrypt"@ {
                crypt_parse_from(args, i + 1, fname, kword, false, wa)
            } else if a == "-wa"@ || a == "--without-ask"@ {
                crypt_parse_from(args, i + 1, fname, kword, mode, true)
            } else if a == "-h"@ || a == "--help"@ {
                Err(ParseIssue::Help)
            } else {
                Err(ParseIssue::UnknownArg(i as usize))
            }
        } else if fname is None {
            crypt_parse_from(args, i + 1, Some(a), kword, mode, wa)
        } else if a.len() == 0 || !all_alpha_chars(a) {
            Err(ParseIssue::InvalidKey(i as usize))
        } else {
            crypt_parse_from(args, i + 1, fname, Some(a), mode, wa)
        }
    }
}

/// The cipher configuration that an argument list resolves to, or the
/// reason it is refused: flags may stand anywhere, the first bare token
/// names the file, the next the keyword, and both must be present. An
/// empty keyword could never drive the cyclic key, so it is refused as
/// invalid before any file is touched.
pub open spec fn crypt_parse(args: Seq<Seq<char>>) -> Result<
    (Seq<char>, Seq<char>, bool, bool),
    ParseIssue,
> {
    match crypt_parse_from(args, 0, Option::None, Option::None, false, false) {
        Result::Err(e) => Result::Err(e),
        Result::Ok(st) => match st.0 {
            Option::None => Result::Err(ParseIssue::NoFiles),
            Option::Some(f) => match st.1 {
                Option::None => Result::Err(ParseIssue::MissingKey),
                Option::Some(k) => Result::Ok((f, k, st.2, st.3)),
            },
        },
    }
}

/// The error a refused cipher argument list surfaces as: the carried
/// string is the offending argument itself, or the fixed marker used
/// when no keyword argument was given at all.
pub open spec fn crypt_err_matches(e: CryptorErr, p: ParseIssue, args: Seq<Seq<char>>) -> bool {
    match (e, p) {
        (CryptorErr::UnExpectedArg(s), ParseIssue::UnknownArg(i)) => i < args.len() && s@
            == args[i as int],
        (CryptorErr::Help, ParseIssue::Help) => true,
        (CryptorErr::NoFiles, ParseIssue::NoFiles) => true,
        (CryptorErr::InvalidKey(s), ParseIssue::InvalidKey(i)) => i < args.len() && s@
            == args[i as int],
        (CryptorErr::InvalidKey(s), ParseIssue::MissingKey) => s@ == "[NO KEY ARGUMENT]"@,
        _ => false,
    }
}

/// The first `k` non-empty entries of `lines`, in order.
pub open spec fn first_nonempty(lines: Seq<Seq<u8>>, k: int) -> Seq<Seq<u8>>
    decreases lines.len(),
{
    if lines.len() == 0 || k <= 0 {
        Seq::empty()
    } else if lines[0].len() > 0 {
        seq![lines[0]] + first_nonempty(lines.skip(1), k - 1)
    } else {
        first_nonempty(lines.skip(1), k)
    }
}

/// The lines shown for visual confirmation before a decode overwrites a
/// file: the first three non-empty lines of the decoded text.
pub open spec fn preview_spec(text: Seq<u8>) -> Seq<Seq<u8>> {
    first_nonempty(split_lines_spec(text), 3)
}

proof fn lemma_first_nonempty_step(ls: Seq<Seq<u8>>, i: int, k: int)
    requires
        0 <= i < ls.len(),
    ensures
        first_nonempty(ls.skip(i), k) == if k <= 0 {
            Seq::<Seq<u8>>::empty()
        } else if ls[i].len() > 0 {
            seq![ls[i]] + first_nonempty(ls.skip(i + 1), k - 1)
        } else {
            first_nonempty(ls.skip(i + 1), k)
        },
{
    assert(ls.skip(i)[0] == ls[i]);
    assert(ls.skip(i).skip(1) =~= ls.skip(i + 1));
}

/// Collects the preview of `text`, as [`preview_spec`] describes.
pub fn preview_lines(text: &Vec<u8>) -> (r: Vec<Vec<u8>>)
    ensures
        r.deep_view() == preview_spec(text@),
{
    let lines = split_lines(text);
    let ghost ls = lines.deep_view();
    let mut r: Vec<Vec<u8>> = Vec::new();
    let mut i: usize = 0;
    proof {
        assert(ls.skip(0) =~= ls);
        assert(r.deep_view() + first_nonempty(ls, 3) =~~= first_nonempty(ls, 3));
    }
    while i < lines.len() && r.len() < 3
        invariant
            i <= ls.len(),
            ls == lines.deep_view(),
            ls.len() == lines@.len(),
            r@.len() <= 3,
            first_nonempty(ls, 3) == r.deep_view() + first_nonempty(
                ls.skip(i as int),
                3 - r@.len(),
            ),
        decreases ls.len() - i,
    {
        proof {
            lemma_first_nonempty_step(ls, i as int, 3 - r@.len());
        }
        let line = &lines[i];
        proof {
            assert(ls[i as int] == line@);
        }
        if line.len() > 0 {
            let ghost old_r = r.deep_view();
            r.push(line.clone());
            proof {
                assert(r.deep_view() =~~= old_r + seq![line@]);
                assert(first_nonempty(ls, 3) =~~= r.deep_view() + first_nonempty(
                    ls.skip(i as int + 1),
                    3 - r@.len(),
                ));
            }
        }
        i = i + 1;
    }
    proof {
        if r@.len() < 3 {
            assert(ls.skip(i as int) =~= Seq::<Seq<u8>>::empty());
        }
        assert(r.deep_view() + first_nonempty(ls.skip(i as int), 3 - r@.len()) =~~= r.deep_view());
    }
    r
}

/// The cipher tool's resolved configuration: the file to transform, the
/// keyword, the direction (`mode` true encodes, false decodes), and
/// whether a decode may overwrite the file without asking.
pub struct Cryptor {
    pub filename: String,
    pub keyword: String,
    pub mode: bool,
    pub without_ask: bool,
}

impl Cryptor {
    /// A well-formed configuration carries a non-empty, purely alphabetic
    /// keyword.
    pub open spec fn wf(&self) -> bool {
        self.keyword@.len() >= 1 && all_alpha_chars(self.keyword@)
    }

    /// The keyword contains nothing but ASCII letters. (The empty keyword
    /// passes this test but is rejected separately when the configuration
    /// is built, since a cyclic key needs at least one letter.)
    pub fn valid_key(s: &str) -> (r: bool)
        ensures
            r == all_alpha_chars(s@),
    {
        let n = s.unicode_len();
        let mut i: usize = 0;
        while i < n
            invariant
                n == s@.len(),
                i <= n,
                forall|j: int| 0 <= j < i ==> char_alpha(s@[j]),
            decreases n - i,
        {
            let c = s.get_char(i);
            let v = c as u32;
            if !((97 <= v && v <= 122) || (65 <= v && v <= 90)) {
                assert(!char_alpha(s@[i as int]));
                return false;
            }
            i = i + 1;
        }
        true
    }

    /// The decode confirmation: only the single byte `y` accepts the
    /// preview and lets the file be overwritten; any other answer leaves
    /// the file untouched.
    pub fn accepts_overwrite(answer: u8) -> (r: bool)
        ensures
            r == (answer == 121),
    {
        answer == 121
    }

    /// Resolves the cipher tool's argument list, exactly as
    /// [`crypt_parse`] decides it, and hands back either a well-formed
    /// configuration or the error the offending argument surfaces as.
    pub fn new(args: &Vec<String>) -> (r: Result<Cryptor, CryptorErr>)
        ensures
            match (r, crypt_parse(args.deep_view())) {
                (Result::Ok(c), Result::Ok(o)) => c.filename@ == o.0 && c.keyword@ == o.1
                    && c.mode == o.2 && c.without_ask == o.3 && c.wf(),
                (Result::Err(e), Result::Err(p)) => crypt_err_matches(e, p, args.deep_view()),
                _ => false,
            },
    {
        let ghost gargs = args.deep_view();
        let mut filename: Option<String> = None;
        let mut keyword: Option<String> = None;
        let mut mode: bool = false;
        let mut without_ask: bool = false;
        let mut i: usize = 0;
        while i < args.len()
            invariant
                i <= gargs.len(),
                gargs == args.deep_view(),
                gargs.len() == args@.len(),
                crypt_parse_from(gargs, 0, Option::None, Option::None, false, false)
                    == crypt_parse_from(
                    gargs,
                    i as int,
                    opt_view(filename),
                    opt_view(keyword),
                    mode,
                    without_ask,
                ),
                match keyword {
                    Option::Some(k) => k@.len() >= 1 && all_alpha_chars(k@),
                    Option::None => true,
                },
            decreases gargs.len() - i,
        {
            let a = &args[i];
            proof {
                assert(gargs[i as int] == a@);
            }
            if starts_dash(a) {
                if str_eq(a, "-c") || str_eq(a, "--crypt") {
                    mode = true;
                } else if str_eq(a, "-d") || str_eq(a, "--decrypt") {
                    mode = false;
                } else if str_eq(a, "-wa") || str_eq(a, "--without-ask") {
                    without_ask = true;
                } else if str_eq(a, "-h") || str_eq(a, "--help") {
                    return Err(CryptorErr::Help);
                } else {
                    return Err(CryptorErr::UnExpectedArg(a.clone()));
                }
            } else if filename.is_none() {
                filename = Some(a.clone());
            } else {
                if a.as_str().is_empty() || !Self::valid_key(a.as_str()) {
                    return Err(CryptorErr::InvalidKey(a.clone()));
                }
                keyword = Some(a.clone());
            }
            i = i + 1;
        }
        match filename {
            None => Err(CryptorErr::NoFiles),
            Some(f) => match keyword {
                None => Err(CryptorErr::InvalidKey("[NO KEY ARGUMENT]".to_owned())),
                Some(k) => Ok(
                    Cryptor { filename: f, keyword: k, mode: mode, without_ask: without_ask },
                ),
            },
        }
    }

    /// The keyword as a byte sequence, ready for [`Cryptor::crypt`] and
    /// [`Cryptor::decrypt`].
    pub fn key_bytes(&self) -> (r: Vec<u8>)
        requires
            self.wf(),
        ensures
            key_ok(r@),
            r@.len() == self.keyword@.len(),
    {
        let s = self.keyword.as_str();
        let n = s.unicode_len();
        let mut r: Vec<u8> = Vec::new();
        let mut i: usize = 0;
        while i < n
            invariant
                n == s@.len(),
                all_alpha_chars(s@),
                i <= n,
                r@.len() == i,
                forall|j: int| 0 <= j < i ==> is_alpha(r@[j]),
            decreases n - i,
        {
            let c = s.get_char(i);
            let v = c as u32;
            assert(char_alpha(s@[i as int]));
            r.push(v as u8);
            i = i + 1;
        }
        r
    }

    /// Encodes `text` under `keyword`, as [`crypt_spec`] describes.
    pub fn crypt(text: &Vec<u8>, keyword: &Vec<u8>) -> (r: Vec<u8>)
        requires
            key_ok(keyword@),
        ensures
            r@ == crypt_spec(text@, keyword@),
    {
        let ghost gkey = keyword@;
        let mut out: Vec<u8> = Vec::new();
        let mut key_index: usize = 0;
        let mut i: usize = 0;
        proof {
            assert(text@.take(0) =~= Seq::<u8>::empty());
            lemma_small_mod(0, gkey.len());
        }
        while i < text.len()
            invariant
                key_ok(gkey),
                gkey == keyword@,
                i <= text@.len(),
                out@ == crypt_spec(text@, gkey).take(i as int),
                key_index == alpha_count(text@.take(i as int)) % gkey.len(),
                key_index < gkey.len(),
            decreases text@.len() - i,
        {
            let ghost n = alpha_count(text@.take(i as int));
            let b = text[i];
            let e: u8;
            if byte_is_alpha(b) {
                let base: u8 = if b >= 97 {
                    97
                } else {
                    65
                };
                let kb = keyword[key_index];
                let klow: u8 = if kb <= 90 {
                    kb + 32
                } else {
                    kb
                };
                let kv: u8 = klow - 97;
                e = (b - base + kv) % 26 + base;
                proof {
                    assert(kv == key_shift(gkey, n));
                    assert(e == enc_byte(text@[i as int], key_shift(gkey, n)));
                }
                let klen = keyword.len();
                key_index = key_index + 1;
                if key_index == klen {
                    key_index = 0;
                }
            } else {
                e = b;
            }
            out.push(e);
            proof {
                lemma_alpha_count_take(text@, i as int);
                if is_alpha(text@[i as int]) {
                    lemma_inc_mod(n, gkey.len());
                    if (n % gkey.len()) + 1 == gkey.len() {
                        vstd::arithmetic::div_mod::lemma_mod_self_0(gkey.len() as int);
                    } else {
                        lemma_small_mod((n % gkey.len()) + 1, gkey.len());
                    }
                }
                assert(key_index == alpha_count(text@.take(i as int + 1)) % gkey.len());
                assert(out@ =~= crypt_spec(text@, gkey).take(i as int + 1));
            }
            i = i + 1;
        }
        proof {
            assert(crypt_spec(text@, gkey).take(text@.len() as int) =~= crypt_spec(text@, gkey));
        }
        out
    }

    /// Decodes `text` under `keyword`, as [`decrypt_spec`] describes.
    pub fn decrypt(text: &Vec<u8>, keyword: &Vec<u8>) -> (r: Vec<u8>)
        requires
            key_ok(keyword@),
        ensures
            r@ == decrypt_spec(text@, keyword@),
    {
        let ghost gkey = keyword@;
        let mut out: Vec<u8> = Vec::new();
        let mut key_index: usize = 0;
        let mut i: usize = 0;
        proof {
            assert(text@.take(0) =~= Seq::<u8>::empty());
            lemma_small_mod(0, gkey.len());
        }
        while i < text.len()
            invariant
                key_ok(gkey),
                gkey == keyword@,
                i <= text@.len(),
                out@ == decrypt_spec(text@, gkey).take(i as int),
                key_index == alpha_count(text@.take(i as int)) % gkey.len(),
                key_index < gkey.len(),
            decreases text@.len() - i,
        {
            let ghost n = alpha_count(text@.take(i as int));
            let b = text[i];
            let e: u8;
            if byte_is_alpha(b) {
                let base: u8 = if b >= 97 {
                    97
                } else {
                    65
                };
                let kb = keyword[key_index];
                let klow: u8 = if kb <= 90 {
                    kb + 32
                } else {
                    kb
                };
                let kv: u8 = klow - 97;
                e = (b - base + 26 - kv) % 26 + base;
                proof {
                    assert(kv == key_shift(gkey, n));
                    assert(e == dec_byte(text@[i as int], key_shift(gkey, n)));
                }
                let klen = keyword.len();
                key_index = key_index + 1;
                if key_index == klen {
                    key_index = 0;
                }
            } else {
                e = b;
            }
            out.push(e);
            proof {
                lemma_alpha_count_take(text@, i as int);
                if is_alpha(text@[i as int]) {
                    lemma_inc_mod(n, gkey.len());
                    if (n % gkey.len()) + 1 == gkey.len() {
                        vstd::arithmetic::div_mod::lemma_mod_self_0(gkey.len() as int);
                    } else {
                        lemma_small_mod((n % gkey.len()) + 1, gkey.len());
                    }
                }
                assert(key_index == alpha_count(text@.take(i as int + 1)) % gkey.len());
                assert(out@ =~= decrypt_spec(text@, gkey).take(i as int + 1));
            }
            i = i + 1;
        }
        proof {
            assert(decrypt_spec(text@, gkey).take(text@.len() as int) =~= decrypt_spec(
                text@,
                gkey,
            ));
        }
        out
    }
}

} // verus!
