//! Path and string utilities: file-type classification, absolute-path and
//! dot-path predicates, lexical path joining and splitting, decimal
//! rendering, deduplication, and a frequency-throttled timer.
use vstd::prelude::*;
use vstd::multiset::Multiset;
use std::io::Write;

verus! {

/// Classification of one filesystem object, as a no-follow or follow probe
/// reports it.
#[derive(Clone, Copy, Debug, PartialEq, Eq, Structural)]
pub enum FileType {
    Dir,
    Reg,
    Device,
    Symlink,
    Unsupported,
}

impl FileType {
    pub fn is_dir(&self) -> (r: bool)
        ensures
            r == (*self is Dir),
    {
        matches!(self, FileType::Dir)
    }

    pub fn is_reg(&self) -> (r: bool)
        ensures
            r == (*self is Reg),
    {
        matches!(self, FileType::Reg)
    }

    pub fn is_device(&self) -> (r: bool)
        ensures
            r == (*self is Device),
    {
        matches!(self, FileType::Device)
    }

    pub fn is_symlink(&self) -> (r: bool)
        ensures
            r == (*self is Symlink),
    {
        matches!(self, FileType::Symlink)
    }

    pub fn is_unsupported(&self) -> (r: bool)
        ensures
            r == (*self is Unsupported),
    {
        matches!(self, FileType::Unsupported)
    }
}

/// An absolute path: nonempty and rooted at '/'.
pub open spec fn spec_is_abspath(s: Seq<char>) -> bool {
    s.len() > 0 && s[0] == '/'
}

/// True iff the path is absolute; paths are POSIX, so absolute means rooted
/// at '/'.
pub fn is_abspath(f: &str) -> (r: bool)
    ensures
        r == spec_is_abspath(f@),
{
    let n = f.unicode_len();
    if n == 0 {
        false
    } else {
        f.get_char(0) == '/'
    }
}

/// The path separator on the only platform the tool supports.
pub fn get_path_separator() -> (r: char)
    ensures
        r == '/',
{
    '/'
}

/// The decimal digit for one value below ten.
pub open spec fn spec_dec_digit(d: nat) -> char {
    if d == 0 {
        '0'
    } else if d == 1 {
        '1'
    } else if d == 2 {
        '2'
    } else if d == 3 {
        '3'
    } else if d == 4 {
        '4'
    } else if d == 5 {
        '5'
    } else if d == 6 {
        '6'
    } else if d == 7 {
        '7'
    } else if d == 8 {
        '8'
    } else {
        '9'
    }
}

/// The decimal rendering of a natural number, most significant digit first.
pub open spec fn spec_dec(n: nat) -> Seq<char>
    decreases n,
{
    if n < 10 {
        seq![spec_dec_digit(n)]
    } else {
        spec_dec(n / 10).push(spec_dec_digit(n % 10))
    }
}

fn push_digit(s: &mut String, d: u64)
    requires
        d < 10,
    ensures
        final(s)@ == old(s)@ + seq![spec_dec_digit(d as nat)],
{
    proof {
        reveal_strlit("0");
        reveal_strlit("1");
        reveal_strlit("2");
        reveal_strlit("3");
        reveal_strlit("4");
        reveal_strlit("5");
        reveal_strlit("6");
        reveal_strlit("7");
        reveal_strlit("8");
        reveal_strlit("9");
    }
    if d == 0 {
        s.append("0");
        assert(s@ =~= old(s)@ + seq![spec_dec_digit(d as nat)]);
    } else if d == 1 {
        s.append("1");
        assert(s@ =~= old(s)@ + seq![spec_dec_digit(d as nat)]);
    } else if d == 2 {
        s.append("2");
        assert(s@ =~= old(s)@ + seq![spec_dec_digit(d as nat)]);
    } else if d == 3 {
        s.append("3");
        assert(s@ =~= old(s)@ + seq![spec_dec_digit(d as nat)]);
    } else if d == 4 {
        s.append("4");
        assert(s@ =~= old(s)@ + seq![spec_dec_digit(d as nat)]);
    } else if d == 5 {
        s.append("5");
        assert(s@ =~= old(s)@ + seq![spec_dec_digit(d as nat)]);
    } else if d == 6 {
        s.append("6");
        assert(s@ =~= old(s)@ + seq![spec_dec_digit(d as nat)]);
    } else if d == 7 {
        s.append("7");
        assert(s@ =~= old(s)@ + seq![spec_dec_digit(d as nat)]);
    } else if d == 8 {
        s.append("8");
        assert(s@ =~= old(s)@ + seq![spec_dec_digit(d as nat)]);
    } else {
        s.append("9");
        assert(s@ =~= old(s)@ + seq![spec_dec_digit(d as nat)]);
    }
}

/// Appends the decimal rendering of `n` to `s`.
pub fn push_dec(s: &mut String, n: u64)
    ensures
        final(s)@ == old(s)@ + spec_dec(n as nat),
    decreases n,
{
    if n >= 10 {
        push_dec(s, n / 10);
        push_digit(s, n % 10);
        assert(s@ =~= old(s)@ + spec_dec(n as nat));
    } else {
        push_digit(s, n);
    }
}

/// True of exactly the ten decimal digit characters.
pub open spec fn spec_is_digit(c: char) -> bool {
    48 <= (c as u32) && (c as u32) <= 57
}

/// The numeric value of a decimal digit character.
pub open spec fn spec_digit_val(c: char) -> nat {
    ((c as u32) - 48) as nat
}

/// The number a digit string denotes.
pub open spec fn spec_val(s: Seq<char>) -> nat
    decreases s.len(),
{
    if s.len() == 0 {
        0
    } else {
        spec_val(s.drop_last()) * 10 + spec_digit_val(s.last())
    }
}

/// A decimal rendering is nonempty and consists of digits only.
pub proof fn lemma_dec_digits(n: nat)
    ensures
        spec_dec(n).len() >= 1,
        forall|i: int| 0 <= i < spec_dec(n).len() ==> spec_is_digit(#[trigger] spec_dec(n)[i]),
    decreases n,
{
    if n < 10 {
    } else {
        lemma_dec_digits(n / 10);
        assert forall|i: int| 0 <= i < spec_dec(n).len() implies spec_is_digit(
            #[trigger] spec_dec(n)[i],
        ) by {
            if i < spec_dec(n / 10).len() {
                assert(spec_dec(n)[i] == spec_dec(n / 10)[i]);
            } else {
                assert(spec_dec(n)[i] == spec_dec_digit(n % 10));
            }
        }
    }
}

/// Reading a decimal rendering back yields the number: the rendering is
/// faithful and therefore injective.
pub proof fn lemma_val_dec(n: nat)
    ensures
        spec_val(spec_dec(n)) == n,
    decreases n,
{
    if n < 10 {
        let s = spec_dec(n);
        assert(s == seq![spec_dec_digit(n)]);
        assert(s.len() == 1);
        assert(s.drop_last() =~= Seq::<char>::empty());
        assert(spec_val(Seq::<char>::empty()) == 0);
        assert(s.last() == spec_dec_digit(n));
        lemma_digit_val_roundtrip(n);
        assert(spec_val(s) == spec_val(s.drop_last()) * 10 + spec_digit_val(s.last()));
        assert(spec_val(s) == spec_digit_val(spec_dec_digit(n)));
    } else {
        lemma_val_dec(n / 10);
        let d = spec_dec_digit(n % 10);
        assert(spec_dec(n) == spec_dec(n / 10).push(d));
        assert(spec_dec(n).drop_last() =~= spec_dec(n / 10));
        assert(spec_dec(n).last() == d);
        lemma_digit_val_roundtrip(n % 10);
        assert(spec_digit_val(d) == n % 10);
        assert(spec_val(spec_dec(n)) == (n / 10) * 10 + n % 10);
        assert((n / 10) * 10 + n % 10 == n) by {
            vstd::arithmetic::div_mod::lemma_fundamental_div_mod(n as int, 10);
        }
    }
}

/// The digit for a value below ten denotes that value.
pub proof fn lemma_digit_val_roundtrip(n: nat)
    requires
        n < 10,
    ensures
        spec_digit_val(spec_dec_digit(n)) == n,
{
    if n == 0 {
        assert(('0' as u32) == 48);
    } else if n == 1 {
        assert(('1' as u32) == 49);
    } else if n == 2 {
        assert(('2' as u32) == 50);
    } else if n == 3 {
        assert(('3' as u32) == 51);
    } else if n == 4 {
        assert(('4' as u32) == 52);
    } else if n == 5 {
        assert(('5' as u32) == 53);
    } else if n == 6 {
        assert(('6' as u32) == 54);
    } else if n == 7 {
        assert(('7' as u32) == 55);
    } else if n == 8 {
        assert(('8' as u32) == 56);
    } else {
        assert(('9' as u32) == 57);
    }
}

/// Two digit strings followed by an underscore and a tail can only agree
/// if the digit strings and the tails agree: the underscore cannot sit
/// inside either digit string.
pub proof fn lemma_underscore_split(d1: Seq<char>, r1: Seq<char>, d2: Seq<char>, r2: Seq<char>)
    requires
        d1 + seq!['_'] + r1 == d2 + seq!['_'] + r2,
        forall|i: int| 0 <= i < d1.len() ==> spec_is_digit(#[trigger] d1[i]),
        forall|i: int| 0 <= i < d2.len() ==> spec_is_digit(#[trigger] d2[i]),
    ensures
        d1 == d2,
        r1 == r2,
{
    let s = d1 + seq!['_'] + r1;
    assert(!spec_is_digit('_')) by {
        vstd::utf8::char_u32_cast('_', '_' as u32);
    }
    if d1.len() < d2.len() {
        assert(s[d1.len() as int] == '_');
        assert((d2 + seq!['_'] + r2)[d1.len() as int] == d2[d1.len() as int]);
        assert(false);
    }
    if d2.len() < d1.len() {
        assert(s[d2.len() as int] == '_');
        assert(s[d2.len() as int] == d1[d2.len() as int]);
        assert(false);
    }
    assert(d1.len() == d2.len());
    assert forall|i: int| 0 <= i < d1.len() implies d1[i] == d2[i] by {
        assert(s[i] == d1[i]);
        assert((d2 + seq!['_'] + r2)[i] == d2[i]);
    }
    assert(d1 =~= d2);
    assert(s.len() == (d2 + seq!['_'] + r2).len());
    assert(r1.len() == r2.len());
    assert forall|i: int| 0 <= i < r1.len() implies r1[i] == r2[i] by {
        assert(s[d1.len() + 1 + i] == r1[i]);
        assert((d2 + seq!['_'] + r2)[d2.len() + 1 + i] == r2[i]);
    }
    assert(r1 =~= r2);
}

/// Whether two strings have equal contents.
pub fn str_eq(a: &str, b: &str) -> (r: bool)
    ensures
        r == (a@ == b@),
{
    let na = a.unicode_len();
    let nb = b.unicode_len();
    if na != nb {
        return false;
    }
    let mut i: usize = 0;
    while i < na
        invariant
            0 <= i <= na,
            na == a@.len(),
            nb == b@.len(),
            na == nb,
            forall|j: int| 0 <= j < i ==> a@[j] == b@[j],
        decreases na - i,
    {
        if a.get_char(i) != b.get_char(i) {
            return false;
        }
        i += 1;
    }
    proof {
        assert(a@ =~= b@);
    }
    true
}

/// Whether `p` is a prefix of `s`.
pub fn str_starts_with(s: &str, p: &str) -> (r: bool)
    ensures
        r == p@.is_prefix_of(s@),
{
    let ns = s.unicode_len();
    let np = p.unicode_len();
    if np > ns {
        return false;
    }
    let mut i: usize = 0;
    while i < np
        invariant
            0 <= i <= np,
            ns == s@.len(),
            np == p@.len(),
            np <= ns,
            forall|j: int| 0 <= j < i ==> s@[j] == p@[j],
        decreases np - i,
    {
        if s.get_char(i) != p.get_char(i) {
            assert(!p@.is_prefix_of(s@));
            return false;
        }
        i += 1;
    }
    proof {
        assert(p@ =~= s@.subrange(0, np as int));
    }
    true
}

/// Strict lexicographic order on character sequences, by code point.
pub open spec fn lex_lt(a: Seq<char>, b: Seq<char>) -> bool
    decreases a.len(),
{
    if b.len() == 0 {
        false
    } else if a.len() == 0 {
        true
    } else if a[0] != b[0] {
        (a[0] as u32) < (b[0] as u32)
    } else {
        lex_lt(a.skip(1), b.skip(1))
    }
}

/// Non-strict lexicographic order.
pub open spec fn lex_le(a: Seq<char>, b: Seq<char>) -> bool {
    lex_lt(a, b) || a == b
}

/// Lexicographic order relates every pair of sequences.
pub proof fn lemma_lex_connex(a: Seq<char>, b: Seq<char>)
    ensures
        lex_lt(a, b) || lex_lt(b, a) || a == b,
    decreases a.len(),
{
    if a.len() == 0 {
        if b.len() == 0 {
            assert(a =~= b);
        }
    } else if b.len() == 0 {
    } else if a[0] == b[0] {
        lemma_lex_connex(a.skip(1), b.skip(1));
        if a.skip(1) == b.skip(1) {
            assert(a.len() - 1 == a.skip(1).len());
            assert(b.len() - 1 == b.skip(1).len());
            assert forall|i: int| 0 <= i < a.len() implies a[i] == b[i] by {
                if i >= 1 {
                    assert(a.skip(1)[i - 1] == a[i]);
                    assert(b.skip(1)[i - 1] == b[i]);
                }
            }
            assert(a =~= b);
        }
    } else {
        assert((a[0] as u32) != (b[0] as u32)) by {
            vstd::utf8::char_u32_cast(a[0], a[0] as u32);
            vstd::utf8::char_u32_cast(b[0], b[0] as u32);
        }
    }
}

/// Strict lexicographic order is transitive.
pub proof fn lemma_lex_trans(a: Seq<char>, b: Seq<char>, c: Seq<char>)
    requires
        lex_lt(a, b),
        lex_lt(b, c),
    ensures
        lex_lt(a, c),
    decreases a.len(),
{
    if a.len() == 0 {
    } else {
        if a[0] == b[0] {
            if b[0] == c[0] {
                lemma_lex_trans(a.skip(1), b.skip(1), c.skip(1));
            }
        }
    }
}

/// The path joined from `f1` and `f2`: `f2` alone when it is absolute,
/// otherwise `f1` and `f2` glued with a single separator.
pub open spec fn spec_join_path(a: Seq<char>, b: Seq<char>) -> Seq<char> {
    if spec_is_abspath(b) {
        b
    } else if a.len() == 0 {
        b
    } else if a[a.len() - 1] == '/' {
        a + b
    } else {
        a + seq!['/'] + b
    }
}

/// Lexical join of two paths; `..` entries are not resolved.
pub fn join_path(f1: &str, f2: &str) -> (r: String)
    ensures
        r@ == spec_join_path(f1@, f2@),
{
    proof {
        reveal_strlit("/");
    }
    if is_abspath(f2) {
        return String::from_str(f2);
    }
    let n = f1.unicode_len();
    if n == 0 {
        return String::from_str(f2);
    }
    let mut s = String::from_str(f1);
    if f1.get_char(n - 1) == '/' {
        s.append(f2);
        s
    } else {
        s.append("/");
        s.append(f2);
        proof {
            assert(s@ =~= f1@ + seq!['/'] + f2@);
        }
        s
    }
}

/// The index of the last '/' in the sequence, or -1 when there is none.
pub open spec fn spec_last_slash(s: Seq<char>) -> int
    decreases s.len(),
{
    if s.len() == 0 {
        -1
    } else if s[s.len() - 1] == '/' {
        s.len() - 1
    } else {
        spec_last_slash(s.take(s.len() - 1))
    }
}

/// `spec_last_slash` finds the rightmost separator.
pub proof fn lemma_last_slash(s: Seq<char>)
    ensures
        -1 <= spec_last_slash(s) < s.len(),
        spec_last_slash(s) >= 0 ==> s[spec_last_slash(s)] == '/',
        forall|j: int| spec_last_slash(s) < j < s.len() ==> s[j] != '/',
    decreases s.len(),
{
    if s.len() == 0 {
    } else if s[s.len() - 1] == '/' {
    } else {
        let t = s.take(s.len() - 1);
        lemma_last_slash(t);
        assert(forall|j: int| 0 <= j < t.len() ==> t[j] == s[j]);
    }
}

/// Finds the rightmost separator of an absolute path.
fn last_slash_of(s: &str) -> (r: usize)
    requires
        spec_is_abspath(s@),
    ensures
        r == spec_last_slash(s@),
        s@[r as int] == '/',
{
    proof {
        lemma_last_slash(s@);
    }
    let n = s.unicode_len();
    let mut i: usize = n;
    loop
        invariant
            1 <= i <= n,
            n == s@.len(),
            spec_is_abspath(s@),
            forall|j: int| i <= j < n ==> s@[j] != '/',
        decreases i,
    {
        i = i - 1;
        if s.get_char(i) == '/' {
            proof {
                lemma_last_slash(s@);
                let k = spec_last_slash(s@);
                if k < i {
                    assert(s@[i as int] == '/');
                    assert(false);
                }
                if k > i {
                    assert(s@[k] == '/');
                    assert(false);
                }
            }
            return i;
        }
    }
}

/// The contents of a path after `path_clean`'s lexical cleanup.
pub uninterp spec fn cleaned(s: Seq<char>) -> Seq<char>;

/// Relies on path_clean::clean: it collapses repeated separators, drops `.`
/// components, and resolves `..` against preceding components or the root;
/// its result is nonempty, stays absolute for absolute inputs, and ends in
/// '/' only when it is exactly "/".
#[verifier::external_body]
fn clean_path(f: &str) -> (r: String)
    ensures
        r@ == cleaned(f@),
        r@.len() > 0,
        spec_is_abspath(f@) ==> spec_is_abspath(r@),
        spec_is_abspath(f@) ==> (r@.len() == 1 || r@[r@.len() - 1] != '/'),
{
    path_clean::clean(f).to_string_lossy().into_owned()
}

/// The path anchored for lexical inspection: itself when absolute, else
/// rooted at '/'.
pub open spec fn spec_abs_input(s: Seq<char>) -> Seq<char> {
    if spec_is_abspath(s) {
        s
    } else {
        seq!['/'] + s
    }
}

fn abs_input(f: &str) -> (r: String)
    ensures
        r@ == spec_abs_input(f@),
        spec_is_abspath(r@),
{
    proof {
        reveal_strlit("/");
    }
    if is_abspath(f) {
        String::from_str(f)
    } else {
        let mut s = String::from_str("/");
        s.append(f);
        proof {
            assert(s@ =~= seq!['/'] + f@);
        }
        s
    }
}

/// The cleaned, anchored form of the path, shared by the splitting helpers.
pub open spec fn spec_cleaned_abs(s: Seq<char>) -> Seq<char> {
    cleaned(spec_abs_input(s))
}

/// Everything before the last separator of a cleaned absolute path, or "/"
/// when the last separator is the root itself.
pub open spec fn spec_dirpath(s: Seq<char>) -> Seq<char> {
    if spec_last_slash(s) == 0 {
        seq!['/']
    } else {
        s.take(spec_last_slash(s))
    }
}

/// Everything after the last separator of a cleaned absolute path.
pub open spec fn spec_basename(s: Seq<char>) -> Seq<char> {
    s.subrange(spec_last_slash(s) + 1, s.len() as int)
}

/// The parent of the cleaned path; fails with `NotFound` exactly when the
/// path cleans to the root.
pub fn get_dirpath(f: &str) -> (r: Result<String, crate::Error>)
    ensures
        r is Err <==> spec_cleaned_abs(f@) == seq!['/'],
        r matches Err(e) ==> e == crate::Error::NotFound,
        r matches Ok(d) ==> d@ == spec_dirpath(spec_cleaned_abs(f@)) && spec_is_abspath(d@),
{
    proof {
        reveal_strlit("/");
    }
    let a = abs_input(f);
    let c = clean_path(a.as_str());
    let n = c.as_str().unicode_len();
    if n == 1 {
        proof {
            assert(c@ =~= seq!['/']);
        }
        return Err(crate::Error::NotFound);
    }
    proof {
        assert(c@ != seq!['/']);
    }
    let k = last_slash_of(c.as_str());
    proof {
        lemma_last_slash(c@);
    }
    if k == 0 {
        proof {
            assert("/"@ =~= seq!['/']);
        }
        Ok(String::from_str("/"))
    } else {
        let d = c.as_str().substring_char(0, k);
        proof {
            assert(d@ =~= c@.take(k as int));
        }
        Ok(String::from_str(d))
    }
}

/// The last component of the cleaned path; fails with `NotFound` exactly
/// when the path cleans to the root.
pub fn get_basename(f: &str) -> (r: Result<String, crate::Error>)
    ensures
        r is Err <==> spec_cleaned_abs(f@) == seq!['/'],
        r matches Err(e) ==> e == crate::Error::NotFound,
        r matches Ok(b) ==> b@ == spec_basename(spec_cleaned_abs(f@)) && b@.len() > 0,
{
    proof {
        reveal_strlit("/");
    }
    let a = abs_input(f);
    let c = clean_path(a.as_str());
    let n = c.as_str().unicode_len();
    if n == 1 {
        proof {
            assert(c@ =~= seq!['/']);
        }
        return Err(crate::Error::NotFound);
    }
    proof {
        assert(c@ != seq!['/']);
    }
    let k = last_slash_of(c.as_str());
    proof {
        lemma_last_slash(c@);
        assert(c@[c@.len() - 1] != '/');
        assert(k < c@.len() - 1);
    }
    let b = c.as_str().substring_char(k + 1, n);
    proof {
        assert(b@ =~= c@.subrange(k + 1, c@.len() as int));
    }
    Ok(String::from_str(b))
}

/// Whether the sequence contains a '.' directly after a '/'.
pub open spec fn spec_has_dot_after_slash(s: Seq<char>) -> bool {
    exists|k: int| #![trigger s[k]] 0 <= k && k + 1 < s.len() && s[k] == '/' && s[k + 1] == '.'
}

fn has_dot_after_slash(f: &str) -> (r: bool)
    ensures
        r == spec_has_dot_after_slash(f@),
{
    let n = f.unicode_len();
    if n < 2 {
        return false;
    }
    let mut prev = f.get_char(0);
    let mut i: usize = 1;
    while i < n
        invariant
            1 <= i <= n,
            n == f@.len(),
            prev == f@[i - 1],
            forall|k: int| #![trigger f@[k]] 0 <= k < i - 1 ==> !(f@[k] == '/' && f@[k + 1]
                == '.'),
        decreases n - i,
    {
        let c = f.get_char(i);
        if prev == '/' && c == '.' {
            proof {
                assert(f@[i - 1] == '/' && f@[i as int] == '.');
            }
            return true;
        }
        prev = c;
        i += 1;
    }
    false
}

/// A dot path: the cleaned basename starts with '.', or the raw path
/// contains "/."; a path that cleans to the root is never a dot path.
pub open spec fn spec_is_dot_path(s: Seq<char>) -> bool {
    if spec_cleaned_abs(s) == seq!['/'] {
        false
    } else {
        spec_basename(spec_cleaned_abs(s))[0] == '.' || spec_has_dot_after_slash(s)
    }
}

/// Whether the path names a dot entry (hidden file or a path through one).
pub fn is_dot_path(f: &str) -> (r: bool)
    ensures
        r == spec_is_dot_path(f@),
{
    match get_basename(f) {
        Ok(b) => b.as_str().get_char(0) == '.' || has_dot_after_slash(f),
        Err(_) => false,
    }
}

/// Whether `a` comes strictly before `b` lexicographically.
pub fn str_lt(a: &str, b: &str) -> (r: bool)
    ensures
        r == lex_lt(a@, b@),
{
    let na = a.unicode_len();
    let nb = b.unicode_len();
    let n = if na < nb {
        na
    } else {
        nb
    };
    let mut i: usize = 0;
    proof {
        assert(a@.skip(0) =~= a@);
        assert(b@.skip(0) =~= b@);
    }
    while i < n
        invariant
            0 <= i <= n,
            na == a@.len(),
            nb == b@.len(),
            n == if na < nb {
                na
            } else {
                nb
            },
            lex_lt(a@, b@) == lex_lt(a@.skip(i as int), b@.skip(i as int)),
        decreases n - i,
    {
        let ca = a.get_char(i);
        let cb = b.get_char(i);
        if ca != cb {
            return (ca as u32) < (cb as u32);
        }
        proof {
            assert(a@.skip(i as int).skip(1) =~= a@.skip(i + 1));
            assert(b@.skip(i as int).skip(1) =~= b@.skip(i + 1));
        }
        i += 1;
    }
    na < nb
}

/// The input with every later duplicate removed: each element keeps its
/// first occurrence, in order.
pub open spec fn spec_dedup(s: Seq<Seq<char>>) -> Seq<Seq<char>>
    decreases s.len(),
{
    if s.len() == 0 {
        Seq::empty()
    } else {
        let p = spec_dedup(s.drop_last());
        if p.contains(s.last()) {
            p
        } else {
            p.push(s.last())
        }
    }
}

/// Removes duplicate strings, keeping first occurrences in order.
pub fn remove_dup_string(input: &Vec<String>) -> (r: Vec<String>)
    ensures
        r.deep_view() == spec_dedup(input.deep_view()),
{
    let mut out: Vec<String> = Vec::new();
    let mut i: usize = 0;
    proof {
        assert(input.deep_view().take(0) =~= Seq::<Seq<char>>::empty());
        assert(out.deep_view() =~= Seq::<Seq<char>>::empty());
    }
    while i < input.len()
        invariant
            0 <= i <= input@.len(),
            input.deep_view().len() == input@.len(),
            out.deep_view() == spec_dedup(input.deep_view().take(i as int)),
        decreases input@.len() - i,
    {
        let a: &String = &input[i];
        let mut exists_already = false;
        let mut j: usize = 0;
        while j < out.len()
            invariant
                0 <= j <= out@.len(),
                out.deep_view().len() == out@.len(),
                a@ == input.deep_view()[i as int],
                i < input.deep_view().len(),
                exists_already == exists|m: int|
                    0 <= m < j && out.deep_view()[m] == input.deep_view()[i as int],
            decreases out@.len() - j,
        {
            let eq = str_eq(a.as_str(), out[j].as_str());
            proof {
                assert(out.deep_view()[j as int] == out@[j as int]@);
            }
            if eq {
                exists_already = true;
            }
            j += 1;
        }
        proof {
            assert(exists_already == out.deep_view().contains(input.deep_view()[i as int]));
        }
        if !exists_already {
            out.push(a.clone());
        }
        proof {
            let dv = input.deep_view();
            assert(dv.take(i + 1).drop_last() =~= dv.take(i as int));
            assert(dv.take(i + 1).last() == dv[i as int]);
            if !exists_already {
                assert(out.deep_view() =~= spec_dedup(dv.take(i as int)).push(dv[i as int]));
            }
        }
        i += 1;
    }
    proof {
        assert(input.deep_view().take(input.deep_view().len() as int) =~= input.deep_view());
    }
    out
}

/// Sortedness under the lexicographic order.
pub open spec fn sorted_lex(s: Seq<Seq<char>>) -> bool {
    forall|i: int, j: int| 0 <= i < j < s.len() ==> lex_le(s[i], s[j])
}

fn sorted_insert(out: &mut Vec<String>, x: String)
    requires
        sorted_lex(old(out).deep_view()),
    ensures
        sorted_lex(final(out).deep_view()),
        final(out).deep_view().to_multiset() == old(out).deep_view().to_multiset().insert(x@),
        final(out)@.len() == old(out)@.len() + 1,
{
    broadcast use vstd::seq_lib::group_to_multiset_ensures;

    let mut k: usize = 0;
    let n = out.len();
    while k < n && !str_lt(x.as_str(), out[k].as_str())
        invariant
            0 <= k <= n,
            n == out@.len(),
            out == old(out),
            out.deep_view().len() == out@.len(),
            sorted_lex(out.deep_view()),
            forall|j: int| 0 <= j < k ==> lex_le(#[trigger] out.deep_view()[j], x@),
        decreases n - k,
    {
        proof {
            lemma_lex_connex(x@, out.deep_view()[k as int]);
        }
        k += 1;
    }
    let ghost dv_old = out.deep_view();
    let ghost kk = k as int;
    proof {
        if k < n {
            assert(lex_lt(x@, dv_old[kk]));
        }
    }
    out.insert(k, x);
    proof {
        let dv_new = out.deep_view();
        assert(dv_new =~= dv_old.insert(kk, x@));
        // sortedness
        assert forall|i: int, j: int| 0 <= i < j < dv_new.len() implies lex_le(
            dv_new[i],
            dv_new[j],
        ) by {
            if i < kk && j == kk {
                assert(dv_new[i] == dv_old[i]);
            } else if i == kk && j > kk {
                assert(dv_new[j] == dv_old[j - 1]);
                assert(lex_lt(x@, dv_old[kk]));
                if j - 1 > kk {
                    assert(lex_le(dv_old[kk], dv_old[j - 1]));
                    if dv_old[kk] != dv_old[j - 1] {
                        lemma_lex_trans(x@, dv_old[kk], dv_old[j - 1]);
                    }
                }
            } else if i < kk && j > kk {
                assert(dv_new[i] == dv_old[i]);
                assert(dv_new[j] == dv_old[j - 1]);
                if kk < j - 1 {
                    assert(lex_le(dv_old[i], dv_old[j - 1]));
                } else {
                    // j - 1 == kk: dv_old[i] <= x would not follow; instead
                    // i < kk means dv_old[i] <= x
                    assert(lex_le(dv_old[i], x@));
                }
            } else if i > kk && j > kk {
                assert(dv_new[i] == dv_old[i - 1]);
                assert(dv_new[j] == dv_old[j - 1]);
            } else if i == kk && j == kk {
            } else if i > kk && j == kk {
            } else if i < kk && j < kk {
                assert(dv_new[i] == dv_old[i]);
                assert(dv_new[j] == dv_old[j]);
            }
        }
        // multiset
        let pre = dv_old.take(kk);
        let post = dv_old.skip(kk);
        assert(dv_old =~= pre + post);
        assert(dv_new =~= pre + (seq![x@] + post));
        vstd::seq_lib::lemma_multiset_commutative(pre, post);
        vstd::seq_lib::lemma_multiset_commutative(pre, seq![x@] + post);
        vstd::seq_lib::lemma_multiset_commutative(seq![x@], post);
        assert(seq![x@] =~= Seq::<Seq<char>>::empty().push(x@));
        assert(Seq::<Seq<char>>::empty().to_multiset() =~= Multiset::<Seq<char>>::empty());
        assert(seq![x@].to_multiset() =~= Multiset::<Seq<char>>::empty().insert(x@));
        assert(dv_new.to_multiset() =~= dv_old.to_multiset().insert(x@));
    }
}

/// Sorts the strings lexicographically; the contents are preserved as a
/// multiset.
pub fn sort_strings(l: &mut Vec<String>)
    ensures
        sorted_lex(final(l).deep_view()),
        final(l).deep_view().to_multiset() == old(l).deep_view().to_multiset(),
        final(l)@.len() == old(l)@.len(),
{
    broadcast use vstd::seq_lib::group_to_multiset_ensures;

    let mut out: Vec<String> = Vec::new();
    let mut i: usize = 0;
    proof {
        assert(l.deep_view().take(0) =~= Seq::<Seq<char>>::empty());
        assert(out.deep_view() =~= Seq::<Seq<char>>::empty());
        assert(out.deep_view().to_multiset() =~= l.deep_view().take(0).to_multiset());
    }
    while i < l.len()
        invariant
            0 <= i <= l@.len(),
            l.deep_view().len() == l@.len(),
            sorted_lex(out.deep_view()),
            out.deep_view().to_multiset() == l.deep_view().take(i as int).to_multiset(),
            out@.len() == i,
        decreases l@.len() - i,
    {
        let x = l[i].clone();
        proof {
            assert(l.deep_view()[i as int] == l@[i as int]@);
            assert(x@ == l.deep_view()[i as int]);
            assert(l.deep_view().take(i + 1) =~= l.deep_view().take(i as int).push(
                l.deep_view()[i as int],
            ));
            vstd::seq_lib::to_multiset_build(
                l.deep_view().take(i as int),
                l.deep_view()[i as int],
            );
        }
        sorted_insert(&mut out, x);
        i += 1;
    }
    proof {
        assert(l.deep_view().take(l.deep_view().len() as int) =~= l.deep_view());
    }
    *l = out;
}

/// A frequency-throttled countdown against the wall clock: `elapsed`
/// reports true at most when `duration` seconds have passed, checking the
/// clock only every `frequency` calls.
pub struct Timer {
    pub time_begin: u64,
    pub duration: u64,
    pub frequency: u64,
    pub counter: u64,
}

impl Timer {
    /// A timer over `duration` seconds, polled every `frequency` calls;
    /// duration 0 means the timer is unused and never fires.
    pub fn new(duration: u64, frequency: u64) -> (t: Timer)
        ensures
            t.duration == duration,
            t.frequency == frequency,
            t.counter == 0,
    {
        Timer { time_begin: now_seconds(), duration, frequency, counter: 0 }
    }

    /// One poll: counts the call and, at the configured frequency, compares
    /// the clock against the duration.
    pub fn elapsed(&mut self) -> (r: bool)
        requires
            old(self).counter < u64::MAX,
        ensures
            final(self).duration == old(self).duration,
            final(self).frequency == old(self).frequency,
            final(self).time_begin == old(self).time_begin,
            old(self).duration == 0 ==> !r && final(self).counter == old(self).counter,
            old(self).duration > 0 ==> final(self).counter == old(self).counter + 1,
            old(self).duration > 0 && old(self).frequency > 0 && (old(self).counter + 1) % (
            old(self).frequency as int) != 0 ==> !r,
    {
        if self.duration == 0 {
            return false;
        }
        self.counter = self.counter + 1;
        if self.frequency == 0 || self.counter % self.frequency == 0 {
            let now = now_seconds();
            let el = if now >= self.time_begin {
                now - self.time_begin
            } else {
                0
            };
            el >= self.duration
        } else {
            false
        }
    }

    /// Restarts the countdown from the present moment.
    pub fn reset(&mut self)
        ensures
            final(self).duration == old(self).duration,
            final(self).frequency == old(self).frequency,
            final(self).counter == old(self).counter,
    {
        self.time_begin = now_seconds();
    }
}

/// Relies on time::OffsetDateTime::now_utc().unix_timestamp() for the wall
/// clock; nothing is assumed of the value.
#[verifier::external_body]
fn unix_now() -> (r: i64) {
    time::OffsetDateTime::now_utc().unix_timestamp()
}

/// The wall clock as seconds since the epoch, clamped to zero for clocks
/// set before it.
pub fn now_seconds() -> (r: u64) {
    let t = unix_now();
    if t < 0 {
        0
    } else {
        t as u64
    }
}

/// Relies on time's format with a numeric-only description
/// ("[year][month][day][hour][minute][second]"): every outcome consists of
/// digits and an optional sign, so it never contains '_'.
#[verifier::external_body]
pub fn get_time_string() -> (r: String)
    ensures
        forall|i: int| 0 <= i < r@.len() ==> r@[i] != '_',
{
    let dt: time::OffsetDateTime = std::time::SystemTime::now().into();
    match time::format_description::parse("[year][month][day][hour][minute][second]") {
        Ok(fmt) => dt.format(&fmt).unwrap_or_default(),
        Err(_) => String::new(),
    }
}

/// Relies on rand::random_range for a uniform draw within [lo, hi).
#[verifier::external_body]
pub(crate) fn get_random(lo: usize, hi: usize) -> (r: usize)
    requires
        lo < hi,
    ensures
        lo <= r < hi,
{
    rand::random_range(lo..hi)
}

/// Relies on std::path::Path::exists: a follow-symlink existence probe;
/// the outcome depends on the filesystem, so nothing is assumed of it.
#[verifier::external_body]
pub fn path_exists(f: &str) -> bool {
    std::path::Path::new(f).exists()
}

/// Relies on std::io::Stdout::write_fmt (via writeln) to emit one line.
#[verifier::external_body]
pub(crate) fn print_line(s: &str) {
    let _ = writeln!(std::io::stdout(), "{}", s);
}

} // verus!
