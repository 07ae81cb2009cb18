use vstd::prelude::*;

verus! {

// ---------------------------------------------------------------------------
// Protocol bytes
// ---------------------------------------------------------------------------

pub const NL: u8 = 10;
pub const SP: u8 = 32;
pub const DOT: u8 = 46;
pub const SLASH: u8 = 47;
pub const BACKSLASH: u8 = 92;

/// ASCII whitespace, as `char::is_whitespace` classifies bytes below 0x80.
pub open spec fn is_ws(b: u8) -> bool {
    b == SP || (9 <= b && b <= 13)
}

fn ws(b: u8) -> (r: bool)
    ensures
        r == is_ws(b),
{
    b == SP || (b >= 9 && b <= 13)
}

// ---------------------------------------------------------------------------
// Appending bytes
// ---------------------------------------------------------------------------

/// Appends all of `src` to `dst`, in order.
pub fn push_bytes(dst: &mut Vec<u8>, src: &[u8])
    ensures
        final(dst)@ == old(dst)@ + src@,
{
    let mut i: usize = 0;
    while i < src.len()
        invariant
            i <= src@.len(),
            dst@ == old(dst)@ + src@.subrange(0, i as int),
        decreases src@.len() - i,
    {
        dst.push(src[i]);
        assert(dst@ =~= old(dst)@ + src@.subrange(0, i + 1 as int));
        i = i + 1;
    }
    assert(dst@ =~= old(dst)@ + src@);
}

/// A copy of `s[lo..hi]`.
pub fn copy_range(s: &[u8], lo: usize, hi: usize) -> (r: Vec<u8>)
    requires
        lo <= hi <= s@.len(),
    ensures
        r@ == s@.subrange(lo as int, hi as int),
{
    let mut r: Vec<u8> = Vec::new();
    let mut i: usize = lo;
    while i < hi
        invariant
            lo <= i <= hi <= s@.len(),
            r@ == s@.subrange(lo as int, i as int),
        decreases hi - i,
    {
        r.push(s[i]);
        assert(r@ =~= s@.subrange(lo as int, i + 1 as int));
        i = i + 1;
    }
    r
}

// ---------------------------------------------------------------------------
// Scanning and trimming
// ---------------------------------------------------------------------------

/// The index of the first newline byte, if any.
pub open spec fn find_nl(s: Seq<u8>) -> Option<int>
    decreases s.len(),
{
    if s.len() == 0 {
        None
    } else if s[0] == NL {
        Some(0)
    } else {
        match find_nl(s.skip(1)) {
            Some(i) => Some(i + 1),
            None => None,
        }
    }
}

pub proof fn lemma_find_nl(s: Seq<u8>, i: int)
    requires
        0 <= i <= s.len(),
        forall|j: int| 0 <= j < i ==> s[j] != NL,
        i < s.len() ==> s[i] == NL,
    ensures
        i < s.len() ==> find_nl(s) == Some(i),
        i == s.len() ==> find_nl(s) is None,
    decreases i,
{
    if s.len() == 0 {
    } else if i == 0 {
    } else {
        assert(forall|j: int| 0 <= j < i - 1 ==> s.skip(1)[j] == s[j + 1]);
        lemma_find_nl(s.skip(1), i - 1);
    }
}

/// `s` with leading ASCII whitespace removed.
pub open spec fn trim_front(s: Seq<u8>) -> Seq<u8>
    decreases s.len(),
{
    if s.len() > 0 && is_ws(s[0]) {
        trim_front(s.skip(1))
    } else {
        s
    }
}

/// `s` with trailing ASCII whitespace removed.
pub open spec fn trim_back(s: Seq<u8>) -> Seq<u8>
    decreases s.len(),
{
    if s.len() > 0 && is_ws(s.last()) {
        trim_back(s.drop_last())
    } else {
        s
    }
}

/// `s` with ASCII whitespace removed from both ends.
pub open spec fn trim_bytes(s: Seq<u8>) -> Seq<u8> {
    trim_back(trim_front(s))
}

pub proof fn lemma_trim_front(s: Seq<u8>, i: int)
    requires
        0 <= i <= s.len(),
        forall|j: int| 0 <= j < i ==> is_ws(s[j]),
        i < s.len() ==> !is_ws(s[i]),
    ensures
        trim_front(s) == s.skip(i),
    decreases i,
{
    if i == 0 {
        assert(s.skip(0) =~= s);
    } else {
        assert(forall|j: int| 0 <= j < i - 1 ==> s.skip(1)[j] == s[j + 1]);
        lemma_trim_front(s.skip(1), i - 1);
        assert(s.skip(1).skip(i - 1) =~= s.skip(i));
    }
}

pub proof fn lemma_trim_back(s: Seq<u8>, i: int)
    requires
        0 <= i <= s.len(),
        forall|j: int| i <= j < s.len() ==> is_ws(s[j]),
        i > 0 ==> !is_ws(s[i - 1]),
    ensures
        trim_back(s) == s.take(i),
    decreases s.len(),
{
    if i == s.len() {
        assert(s.take(i) =~= s);
    } else {
        assert(is_ws(s.last()));
        assert(forall|j: int| i <= j < s.len() - 1 ==> s.drop_last()[j] == s[j]);
        lemma_trim_back(s.drop_last(), i);
        assert(s.drop_last().take(i) =~= s.take(i));
    }
}

/// The maximal non-whitespace prefix of `s`.
pub open spec fn take_tok(s: Seq<u8>) -> Seq<u8>
    decreases s.len(),
{
    if s.len() > 0 && !is_ws(s[0]) {
        seq![s[0]] + take_tok(s.skip(1))
    } else {
        Seq::empty()
    }
}

/// `s` with its maximal non-whitespace prefix removed.
pub open spec fn drop_tok(s: Seq<u8>) -> Seq<u8>
    decreases s.len(),
{
    if s.len() > 0 && !is_ws(s[0]) {
        drop_tok(s.skip(1))
    } else {
        s
    }
}

pub proof fn lemma_tok(s: Seq<u8>, i: int)
    requires
        0 <= i <= s.len(),
        forall|j: int| 0 <= j < i ==> !is_ws(s[j]),
        i < s.len() ==> is_ws(s[i]),
    ensures
        take_tok(s) == s.take(i),
        drop_tok(s) == s.skip(i),
    decreases i,
{
    if i == 0 {
        assert(s.take(0) =~= take_tok(s));
        assert(s.skip(0) =~= s);
    } else {
        assert(forall|j: int| 0 <= j < i - 1 ==> s.skip(1)[j] == s[j + 1]);
        lemma_tok(s.skip(1), i - 1);
        assert(seq![s[0]] + s.skip(1).take(i - 1) =~= s.take(i));
        assert(s.skip(1).skip(i - 1) =~= s.skip(i));
    }
}

/// First index at or past `from` holding a non-whitespace byte.
pub fn scan_non_ws(s: &[u8], from: usize) -> (r: usize)
    requires
        from <= s@.len(),
    ensures
        from <= r <= s@.len(),
        forall|j: int| from <= j < r ==> is_ws(s@[j]),
        r < s@.len() ==> !is_ws(s@[r as int]),
{
    let mut i: usize = from;
    while i < s.len() && ws(s[i])
        invariant
            from <= i <= s@.len(),
            forall|j: int| from <= j < i ==> is_ws(s@[j]),
        decreases s@.len() - i,
    {
        i = i + 1;
    }
    i
}

/// First index at or past `from` holding a whitespace byte.
pub fn scan_ws(s: &[u8], from: usize) -> (r: usize)
    requires
        from <= s@.len(),
    ensures
        from <= r <= s@.len(),
        forall|j: int| from <= j < r ==> !is_ws(s@[j]),
        r < s@.len() ==> is_ws(s@[r as int]),
{
    let mut i: usize = from;
    while i < s.len() && !ws(s[i])
        invariant
            from <= i <= s@.len(),
            forall|j: int| from <= j < i ==> !is_ws(s@[j]),
        decreases s@.len() - i,
    {
        i = i + 1;
    }
    i
}

/// A copy of `s` with ASCII whitespace removed from both ends.
pub fn trim_bytes_vec(s: &[u8]) -> (r: Vec<u8>)
    ensures
        r@ == trim_bytes(s@),
{
    let lo = scan_non_ws(s, 0);
    proof {
        lemma_trim_front(s@, lo as int);
    }
    let mut hi: usize = s.len();
    while hi > lo && ws(s[hi - 1])
        invariant
            lo <= hi <= s@.len(),
            forall|j: int| hi <= j < s@.len() ==> is_ws(s@[j]),
        decreases hi,
    {
        hi = hi - 1;
    }
    proof {
        let t = s@.skip(lo as int);
        assert(forall|j: int| hi - lo <= j < t.len() ==> #[trigger] t[j] == s@[j + lo]);
        lemma_trim_back(t, hi - lo);
        assert(t.take(hi - lo) =~= s@.subrange(lo as int, hi as int));
    }
    copy_range(s, lo, hi)
}

// ---------------------------------------------------------------------------
// Command tokens
// ---------------------------------------------------------------------------

/// The command keyword: the first whitespace-separated token of the line.
pub open spec fn keyword(line: Seq<u8>) -> Seq<u8> {
    take_tok(trim_front(line))
}

/// What follows the keyword, with the separating whitespace removed.
pub open spec fn rest_after_keyword(line: Seq<u8>) -> Seq<u8> {
    trim_front(drop_tok(trim_front(line)))
}

/// The command argument: the second whitespace-separated token of the line.
pub open spec fn arg1(line: Seq<u8>) -> Seq<u8> {
    take_tok(rest_after_keyword(line))
}

pub open spec fn list_kw() -> Seq<u8> {
    seq!['L' as u8, 'I' as u8, 'S' as u8, 'T' as u8]
}

pub open spec fn get_kw() -> Seq<u8> {
    seq!['G' as u8, 'E' as u8, 'T' as u8]
}

// ---------------------------------------------------------------------------
// Filename sanitization
// ---------------------------------------------------------------------------

/// Strips every occurrence of the parent-directory token `..` (left to
/// right, non-overlapping), then every path separator. A weak containment
/// measure: what remains is a single path component.
pub open spec fn sanitize(s: Seq<u8>) -> Seq<u8>
    decreases s.len(),
{
    if s.len() == 0 {
        Seq::empty()
    } else if s.len() >= 2 && s[0] == DOT && s[1] == DOT {
        sanitize(s.skip(2))
    } else if s[0] == SLASH || s[0] == BACKSLASH {
        sanitize(s.skip(1))
    } else {
        seq![s[0]] + sanitize(s.skip(1))
    }
}

/// The sanitized name holds no path separator, so joining it to the served
/// directory cannot resolve outside that directory.
pub proof fn lemma_sanitize_no_separators(s: Seq<u8>)
    ensures
        forall|j: int| 0 <= j < sanitize(s).len() ==> sanitize(s)[j] != SLASH
            && sanitize(s)[j] != BACKSLASH,
    decreases s.len(),
{
    if s.len() == 0 {
    } else if s.len() >= 2 && s[0] == DOT && s[1] == DOT {
        lemma_sanitize_no_separators(s.skip(2));
        assert(sanitize(s) == sanitize(s.skip(2)));
    } else if s[0] == SLASH || s[0] == BACKSLASH {
        lemma_sanitize_no_separators(s.skip(1));
        assert(sanitize(s) == sanitize(s.skip(1)));
    } else {
        lemma_sanitize_no_separators(s.skip(1));
        assert(sanitize(s) == seq![s[0]] + sanitize(s.skip(1)));
        assert forall|j: int| 0 <= j < sanitize(s).len() implies sanitize(s)[j] != SLASH
            && sanitize(s)[j] != BACKSLASH by {
            if j > 0 {
                assert(sanitize(s)[j] == sanitize(s.skip(1))[j - 1]);
            }
        }
    }
}

/// Removes `..` tokens and path separators from a requested file name.
pub fn sanitize_filename(name: &[u8]) -> (r: Vec<u8>)
    ensures
        r@ == sanitize(name@),
{
    let mut r: Vec<u8> = Vec::new();
    let mut i: usize = 0;
    proof {
        assert(name@.skip(0) =~= name@);
        assert(r@ + sanitize(name@) =~= sanitize(name@));
    }
    while i < name.len()
        invariant
            i <= name@.len(),
            sanitize(name@) == r@ + sanitize(name@.skip(i as int)),
        decreases name@.len() - i,
    {
        let ghost pre = name@.skip(i as int);
        let ghost r0 = r@;
        if i + 1 < name.len() && name[i] == DOT && name[i + 1] == DOT {
            proof {
                assert(pre[0] == DOT && pre[1] == DOT);
                assert(pre.skip(2) =~= name@.skip(i + 2 as int));
                assert(sanitize(pre) == sanitize(pre.skip(2)));
            }
            i = i + 2;
        } else {
            proof {
                assert(pre[0] == name@[i as int]);
                assert(pre.len() >= 2 ==> pre[1] == name@[i + 1 as int]);
                assert(pre.skip(1) =~= name@.skip(i + 1 as int));
            }
            if name[i] != SLASH && name[i] != BACKSLASH {
                r.push(name[i]);
                proof {
                    assert(sanitize(pre) == seq![pre[0]] + sanitize(pre.skip(1)));
                    assert(r0 + sanitize(pre) =~= r@ + sanitize(pre.skip(1)));
                }
            } else {
                proof {
                    assert(sanitize(pre) == sanitize(pre.skip(1)));
                }
            }
            i = i + 1;
        }
    }
    proof {
        assert(name@.skip(name@.len() as int) =~= Seq::<u8>::empty());
        assert(r@ =~= sanitize(name@));
    }
    r
}

// ---------------------------------------------------------------------------
// Decimal formatting
// ---------------------------------------------------------------------------

/// The decimal digits of `n`, most significant first, as ASCII bytes.
pub open spec fn dec_digits(n: nat) -> Seq<u8>
    decreases n,
{
    if n < 10 {
        seq![(48 + n) as u8]
    } else {
        dec_digits(n / 10) + seq![(48 + n % 10) as u8]
    }
}

/// `s` reversed.
pub open spec fn seq_rev(s: Seq<u8>) -> Seq<u8>
    decreases s.len(),
{
    if s.len() == 0 {
        Seq::empty()
    } else {
        seq![s.last()] + seq_rev(s.drop_last())
    }
}

/// The decimal representation of `n`, as the `FILE` header prints it.
pub fn u64_to_dec(n: u64) -> (r: Vec<u8>)
    ensures
        r@ == dec_digits(n as nat),
{
    let mut rev: Vec<u8> = Vec::new();
    let mut m: u64 = n;
    proof {
        assert(dec_digits(n as nat) =~= dec_digits(n as nat) + seq_rev(rev@));
    }
    while m >= 10
        invariant
            dec_digits(n as nat) == dec_digits(m as nat) + seq_rev(rev@),
        decreases m,
    {
        let ghost rev0 = rev@;
        let d: u8 = 48 + (m % 10) as u8;
        rev.push(d);
        proof {
            assert(rev@.drop_last() =~= rev0);
            assert(seq_rev(rev@) == seq![d] + seq_rev(rev0));
            assert(d == (48 + (m as nat) % 10) as u8);
            assert(dec_digits(m as nat) == dec_digits((m as nat) / 10) + seq![(48 + (m as nat)
                % 10) as u8]);
            assert(dec_digits((m / 10) as nat) + seq_rev(rev@) =~= dec_digits(m as nat) + seq_rev(
                rev0));
        }
        m = m / 10;
    }
    let ghost rev0 = rev@;
    let d: u8 = 48 + m as u8;
    rev.push(d);
    proof {
        assert(rev@.drop_last() =~= rev0);
        assert(seq_rev(rev@) == seq![d] + seq_rev(rev0));
        assert(dec_digits(m as nat) == seq![(48 + m as nat) as u8]);
        assert(dec_digits(m as nat) =~= seq![d]);
        assert(dec_digits(n as nat) =~= seq_rev(rev@));
    }
    let mut r: Vec<u8> = Vec::new();
    let mut i: usize = rev.len();
    proof {
        assert(rev@.take(rev@.len() as int) =~= rev@);
        assert(r@ + seq_rev(rev@) =~= seq_rev(rev@));
    }
    while i > 0
        invariant
            i <= rev@.len(),
            seq_rev(rev@) == r@ + seq_rev(rev@.take(i as int)),
        decreases i,
    {
        let ghost r0 = r@;
        i = i - 1;
        r.push(rev[i]);
        proof {
            assert(rev@.take(i + 1 as int).drop_last() =~= rev@.take(i as int));
            assert(rev@.take(i + 1 as int).last() == rev@[i as int]);
            assert(seq_rev(rev@.take(i + 1 as int)) == seq![rev@[i as int]] + seq_rev(
                rev@.take(i as int)));
            assert(r0 + seq_rev(rev@.take(i + 1 as int)) =~= r@ + seq_rev(rev@.take(i as int)));
        }
    }
    proof {
        assert(rev@.take(0) =~= Seq::<u8>::empty());
        assert(r@ =~= dec_digits(n as nat));
    }
    r
}

// ---------------------------------------------------------------------------
// Wire messages
// ---------------------------------------------------------------------------

pub open spec fn file_prefix() -> Seq<u8> {
    seq!['F' as u8, 'I' as u8, 'L' as u8, 'E' as u8, ' ' as u8]
}

/// The line `FILE <size>\n`.
pub open spec fn header_line(size: u64) -> Seq<u8> {
    file_prefix() + dec_digits(size as nat) + seq![NL]
}

pub open spec fn md5_prefix() -> Seq<u8> {
    seq!['M' as u8, 'D' as u8, '5' as u8, ' ' as u8]
}

/// The bare newline after the body, then the line `MD5 <digest>\n`.
pub open spec fn trailer_lines(digest: Seq<u8>) -> Seq<u8> {
    seq![NL] + md5_prefix() + digest + seq![NL]
}

/// The line `ERR missing filename\n`.
pub open spec fn err_missing_msg() -> Seq<u8> {
    seq!['E' as u8, 'R' as u8, 'R' as u8, ' ' as u8, 'm' as u8, 'i' as u8, 's' as u8, 's' as u8,
        'i' as u8, 'n' as u8, 'g' as u8, ' ' as u8, 'f' as u8, 'i' as u8, 'l' as u8, 'e' as u8,
        'n' as u8, 'a' as u8, 'm' as u8, 'e' as u8, NL]
}

/// The line `ERR file not found\n`.
pub open spec fn err_not_found_msg() -> Seq<u8> {
    seq!['E' as u8, 'R' as u8, 'R' as u8, ' ' as u8, 'f' as u8, 'i' as u8, 'l' as u8, 'e' as u8,
        ' ' as u8, 'n' as u8, 'o' as u8, 't' as u8, ' ' as u8, 'f' as u8, 'o' as u8, 'u' as u8,
        'n' as u8, 'd' as u8, NL]
}

/// The line `ERR unknown command\n`.
pub open spec fn err_unknown_msg() -> Seq<u8> {
    seq!['E' as u8, 'R' as u8, 'R' as u8, ' ' as u8, 'u' as u8, 'n' as u8, 'k' as u8, 'n' as u8,
        'o' as u8, 'w' as u8, 'n' as u8, ' ' as u8, 'c' as u8, 'o' as u8, 'm' as u8, 'm' as u8,
        'a' as u8, 'n' as u8, 'd' as u8, NL]
}

pub fn err_missing_vec() -> (r: Vec<u8>)
    ensures
        r@ == err_missing_msg(),
{
    let mut v: Vec<u8> = Vec::new();
    v.push('E' as u8);
    v.push('R' as u8);
    v.push('R' as u8);
    v.push(' ' as u8);
    v.push('m' as u8);
    v.push('i' as u8);
    v.push('s' as u8);
    v.push('s' as u8);
    v.push('i' as u8);
    v.push('n' as u8);
    v.push('g' as u8);
    v.push(' ' as u8);
    v.push('f' as u8);
    v.push('i' as u8);
    v.push('l' as u8);
    v.push('e' as u8);
    v.push('n' as u8);
    v.push('a' as u8);
    v.push('m' as u8);
    v.push('e' as u8);
    v.push(NL);
    assert(v@ =~= err_missing_msg());
    v
}

pub fn err_not_found_vec() -> (r: Vec<u8>)
    ensures
        r@ == err_not_found_msg(),
{
    let mut v: Vec<u8> = Vec::new();
    v.push('E' as u8);
    v.push('R' as u8);
    v.push('R' as u8);
    v.push(' ' as u8);
    v.push('f' as u8);
    v.push('i' as u8);
    v.push('l' as u8);
    v.push('e' as u8);
    v.push(' ' as u8);
    v.push('n' as u8);
    v.push('o' as u8);
    v.push('t' as u8);
    v.push(' ' as u8);
    v.push('f' as u8);
    v.push('o' as u8);
    v.push('u' as u8);
    v.push('n' as u8);
    v.push('d' as u8);
    v.push(NL);
    assert(v@ =~= err_not_found_msg());
    v
}

pub fn err_unknown_vec() -> (r: Vec<u8>)
    ensures
        r@ == err_unknown_msg(),
{
    let mut v: Vec<u8> = Vec::new();
    v.push('E' as u8);
    v.push('R' as u8);
    v.push('R' as u8);
    v.push(' ' as u8);
    v.push('u' as u8);
    v.push('n' as u8);
    v.push('k' as u8);
    v.push('n' as u8);
    v.push('o' as u8);
    v.push('w' as u8);
    v.push('n' as u8);
    v.push(' ' as u8);
    v.push('c' as u8);
    v.push('o' as u8);
    v.push('m' as u8);
    v.push('m' as u8);
    v.push('a' as u8);
    v.push('n' as u8);
    v.push('d' as u8);
    v.push(NL);
    assert(v@ =~= err_unknown_msg());
    v
}

/// Appends `FILE <size>\n` to `buf`.
pub fn push_header_line(buf: &mut Vec<u8>, size: u64)
    ensures
        final(buf)@ == old(buf)@ + header_line(size),
{
    buf.push('F' as u8);
    buf.push('I' as u8);
    buf.push('L' as u8);
    buf.push('E' as u8);
    buf.push(' ' as u8);
    let digits = u64_to_dec(size);
    push_bytes(buf, digits.as_slice());
    buf.push(NL);
    assert(buf@ =~= old(buf)@ + header_line(size));
}

/// Appends the bare newline and `MD5 <digest>\n` to `buf`.
pub fn push_trailer_lines(buf: &mut Vec<u8>, digest: &[u8])
    ensures
        final(buf)@ == old(buf)@ + trailer_lines(digest@),
{
    buf.push(NL);
    buf.push('M' as u8);
    buf.push('D' as u8);
    buf.push('5' as u8);
    buf.push(' ' as u8);
    push_bytes(buf, digest);
    buf.push(NL);
    assert(buf@ =~= old(buf)@ + trailer_lines(digest@));
}

// ---------------------------------------------------------------------------
// Directory listing
// ---------------------------------------------------------------------------

/// The `LIST` reply: each name followed by one space, then the `.` sentinel
/// and a newline. An empty listing is just `.\n`.
pub open spec fn list_reply(names: Seq<Seq<u8>>) -> Seq<u8>
    decreases names.len(),
{
    if names.len() == 0 {
        seq![DOT, NL]
    } else {
        names[0] + seq![SP] + list_reply(names.skip(1))
    }
}

/// Every `LIST` reply ends with the sentinel `.` and a newline, whatever
/// the directory holds; an empty directory gets the bare sentinel line.
pub proof fn lemma_list_reply_sentinel(names: Seq<Seq<u8>>)
    ensures
        list_reply(names).len() >= 2,
        list_reply(names)[list_reply(names).len() - 2] == DOT,
        list_reply(names)[list_reply(names).len() - 1] == NL,
        names.len() == 0 ==> list_reply(names) == seq![DOT, NL],
    decreases names.len(),
{
    if names.len() == 0 {
    } else {
        lemma_list_reply_sentinel(names.skip(1));
    }
}

/// The views of a sequence of byte vectors.
pub open spec fn views_of(names: Seq<Vec<u8>>) -> Seq<Seq<u8>> {
    Seq::new(names.len(), |i: int| names[i]@)
}

/// Appends the `LIST` reply for `names` to `buf`.
pub fn push_list_reply(buf: &mut Vec<u8>, names: &Vec<Vec<u8>>)
    ensures
        final(buf)@ == old(buf)@ + list_reply(views_of(names@)),
{
    let ghost dv = views_of(names@);
    let ghost mut acc: Seq<u8> = Seq::empty();
    let mut i: usize = 0;
    proof {
        assert(dv.skip(0) =~= dv);
        assert(acc + list_reply(dv) =~= list_reply(dv));
        assert(old(buf)@ + acc =~= buf@);
    }
    while i < names.len()
        invariant
            i <= names@.len(),
            dv == views_of(names@),
            buf@ == old(buf)@ + acc,
            list_reply(dv) == acc + list_reply(dv.skip(i as int)),
        decreases names@.len() - i,
    {
        push_bytes(buf, names[i].as_slice());
        buf.push(SP);
        proof {
            let pre = dv.skip(i as int);
            assert(pre[0] == dv[i as int]);
            assert(pre.skip(1) =~= dv.skip(i + 1 as int));
            acc = acc + dv[i as int] + seq![SP];
            assert(buf@ =~= old(buf)@ + acc);
            assert(list_reply(dv) =~= acc + list_reply(dv.skip(i + 1 as int)));
        }
        i = i + 1;
    }
    buf.push(DOT);
    buf.push(NL);
    proof {
        assert(dv.skip(dv.len() as int) =~= Seq::<Seq<u8>>::empty());
        assert(buf@ =~= old(buf)@ + list_reply(dv));
    }
}

} // verus!
