//! Text handling for the workbench: hex encoding, the spaced display of a
//! ciphertext, splitting at whitespace, and decimal numbers.
use vstd::prelude::*;

verus! {

broadcast use vstd::string::group_string_axioms;

/// The characters of `s`, in order.
pub fn chars_of(s: &str) -> (v: Vec<char>)
    ensures
        v@ == s@,
{
    let mut v: Vec<char> = Vec::new();
    for c in it: s.chars()
        invariant
            it.seq() == s@,
            v@ == it.seq().take(it.index()),
    {
        v.push(c);
        assert(v@ =~= it.seq().take(it.index() + 1));
    }
    assert(v@ =~= s@);
    v
}


/// The UTF-8 character `n` places after `'0'`, for a digit value.
pub open spec fn digit_char(n: int) -> char {
    (48 + n) as char
}

/// The lowercase hexadecimal digit of a value below 16.
pub open spec fn hex_digit(n: int) -> char {
    if n < 10 {
        (48 + n) as char
    } else {
        (87 + n) as char
    }
}

/// The two lowercase hex digits of a byte.
pub open spec fn hex_byte(b: u8) -> Seq<char> {
    seq![hex_digit((b / 16) as int), hex_digit((b % 16) as int)]
}

/// The lowercase hexadecimal text of `data`: two digits per byte, high nibble
/// first.
pub open spec fn hex_lower(data: Seq<u8>) -> Seq<char> {
    Seq::new(
        2 * data.len(),
        |i: int|
            if i % 2 == 0 {
                hex_digit((data[i / 2] / 16) as int)
            } else {
                hex_digit((data[i / 2] % 16) as int)
            },
    )
}

/// Calls `hex::encode` on `data`.
/// Claimed, as its source shows: two characters per byte, taken from
/// "0123456789abcdef", the high nibble first.
#[verifier::external_body]
pub(crate) fn hex_encode(data: &[u8]) -> (r: String)
    ensures
        r@ == hex_lower(data@),
{
    hex::encode(data)
}

/// Calls `String::push`: appends `c`.
#[verifier::external_body]
pub(crate) fn push_char(s: &mut String, c: char)
    ensures
        final(s)@ == old(s)@.push(c),
{
    s.push(c)
}

/// Whether `c` has the Unicode White_Space property.
pub open spec fn is_white_space(c: char) -> bool {
    let u = c as int;
    ||| 0x09 <= u <= 0x0D
    ||| u == 0x20
    ||| u == 0x85
    ||| u == 0xA0
    ||| u == 0x1680
    ||| 0x2000 <= u <= 0x200A
    ||| u == 0x2028
    ||| u == 0x2029
    ||| u == 0x202F
    ||| u == 0x205F
    ||| u == 0x3000
}

/// Whether `c` is white space, as `char::is_whitespace` decides it.
pub(crate) fn char_is_whitespace(c: char) -> (r: bool)
    ensures
        r == is_white_space(c),
{
    let u = c as u32;
    (0x09 <= u && u <= 0x0D) || u == 0x20 || u == 0x85 || u == 0xA0 || u == 0x1680 || (0x2000 <= u
        && u <= 0x200A) || u == 0x2028 || u == 0x2029 || u == 0x202F || u == 0x205F || u == 0x3000
}

/// `s` cut into consecutive pieces of `n` items; the last may be shorter.
pub open spec fn chunks_of<A>(s: Seq<A>, n: nat) -> Seq<Seq<A>>
    decreases s.len(),
{
    if n == 0 || s.len() == 0 {
        Seq::empty()
    } else if s.len() <= n {
        seq![s]
    } else {
        seq![s.take(n as int)] + chunks_of(s.skip(n as int), n)
    }
}

/// The pieces joined with one space between neighbours.
pub open spec fn join_spaced(parts: Seq<Seq<char>>) -> Seq<char>
    decreases parts.len(),
{
    if parts.len() == 0 {
        Seq::empty()
    } else if parts.len() == 1 {
        parts[0]
    } else {
        parts[0] + seq![' '] + join_spaced(parts.skip(1))
    }
}

/// How a ciphertext's text is shown: its characters in pairs, separated by
/// single spaces.
pub open spec fn spaced_pairs(s: Seq<char>) -> Seq<char> {
    join_spaced(chunks_of(s, 2))
}

/// The maximal runs of non-white-space characters of `s`, in order, where
/// `current` is the run already begun before `s`.
pub open spec fn split_runs(s: Seq<char>, current: Seq<char>) -> Seq<Seq<char>>
    decreases s.len(),
{
    if s.len() == 0 {
        if current.len() > 0 {
            seq![current]
        } else {
            Seq::empty()
        }
    } else if is_white_space(s[0]) {
        (if current.len() > 0 {
            seq![current]
        } else {
            Seq::empty()
        }) + split_runs(s.skip(1), Seq::empty())
    } else {
        split_runs(s.skip(1), current.push(s[0]))
    }
}

/// The words of `s`: what `str::split_whitespace` yields.
pub open spec fn words(s: Seq<char>) -> Seq<Seq<char>> {
    split_runs(s, Seq::empty())
}

/// The decimal text of `n`, without leading zeros.
pub open spec fn decimal(n: nat) -> Seq<char>
    decreases n,
{
    if n < 10 {
        seq![digit_char(n as int)]
    } else {
        decimal(n / 10).push(digit_char((n % 10) as int))
    }
}

/// Appending a last, possibly short, piece to a whole number of pieces adds
/// one chunk.
pub proof fn lemma_chunks_append<A>(t: Seq<A>, p: Seq<A>, n: nat)
    requires
        n > 0,
        t.len() % n == 0,
        0 < p.len() <= n,
    ensures
        chunks_of(t + p, n) == chunks_of(t, n).push(p),
    decreases t.len(),
{
    if t.len() == 0 {
        assert(t + p =~= p);
        assert(chunks_of(t, n) =~= Seq::<Seq<A>>::empty());
        assert(chunks_of(t, n).push(p) =~= seq![p]);
    } else {
        assert(t.len() >= n) by (nonlinear_arith)
            requires
                t.len() % n == 0,
                t.len() > 0,
                n > 0,
        ;
        assert((t + p).take(n as int) =~= t.take(n as int));
        assert((t + p).skip(n as int) =~= t.skip(n as int) + p);
        assert(t.skip(n as int).len() % n == 0) by (nonlinear_arith)
            requires
                t.len() % n == 0,
                t.len() >= n,
                n > 0,
                t.skip(n as int).len() == t.len() - n,
        ;
        lemma_chunks_append(t.skip(n as int), p, n);
        if t.len() == n {
            assert(t.skip(n as int) =~= Seq::<A>::empty());
            assert(t.take(n as int) =~= t);
            assert(chunks_of(t.skip(n as int), n) =~= Seq::<Seq<A>>::empty());
            assert(chunks_of(t, n) =~= seq![t]);
            assert(chunks_of(t + p, n) =~= chunks_of(t, n).push(p));
        } else {
            assert(chunks_of(t + p, n) =~= chunks_of(t, n).push(p));
        }
    }
}

/// Joining one more piece adds a space and the piece.
pub proof fn lemma_join_push(parts: Seq<Seq<char>>, p: Seq<char>)
    ensures
        join_spaced(parts.push(p)) == (if parts.len() == 0 {
            p
        } else {
            join_spaced(parts) + seq![' '] + p
        }),
    decreases parts.len(),
{
    if parts.len() == 0 {
        assert(parts.push(p)[0] == p);
    } else if parts.len() == 1 {
        assert(parts.push(p).skip(1) =~= seq![p]);
        assert(seq![p][0] == p);
        assert(join_spaced(seq![p]) == p);
        assert(parts.push(p)[0] == parts[0]);
        assert(join_spaced(parts) == parts[0]);
    } else {
        assert(parts.push(p).skip(1) =~= parts.skip(1).push(p));
        lemma_join_push(parts.skip(1), p);
        assert(join_spaced(parts.push(p)) =~= join_spaced(parts) + seq![' '] + p);
    }
}

/// Collects characters into a string.
pub fn string_of(v: &Vec<char>) -> (s: String)
    ensures
        s@ == v@,
{
    let mut s = String::new();
    let mut i: usize = 0;
    while i < v.len()
        invariant
            i <= v@.len(),
            s@ == v@.take(i as int),
        decreases v@.len() - i,
    {
        push_char(&mut s, v[i]);
        i += 1;
        assert(s@ =~= v@.take(i as int));
    }
    assert(v@.take(i as int) =~= v@);
    s
}

/// The characters of `text` in pairs, joined by single spaces: how a
/// ciphertext's hex text is shown.
pub fn spaced_pairs_of(text: &str) -> (r: String)
    ensures
        r@ == spaced_pairs(text@),
{
    let chars = chars_of(text);
    let n = chars.len();
    let mut r = String::new();
    let mut i: usize = 0;
    proof {
        assert(chars@.take(0) =~= Seq::<char>::empty());
        assert(chunks_of(Seq::<char>::empty(), 2) =~= Seq::<Seq<char>>::empty());
    }
    while i < n
        invariant
            n == chars@.len(),
            i <= n,
            i < n ==> i % 2 == 0,
            i % 2 == 0 || i == n,
            r@ == join_spaced(chunks_of(chars@.take(i as int), 2)),
            i == 0 <==> chunks_of(chars@.take(i as int), 2).len() == 0,
        decreases n - i,
    {
        let ghost before = chars@.take(i as int);
        let mut pair: Vec<char> = Vec::new();
        pair.push(chars[i]);
        if i + 1 < n {
            pair.push(chars[i + 1]);
        }
        let ghost next_i: int = if i + 1 < n { i + 2 } else { i + 1 };
        proof {
            assert(chars@.take(next_i) =~= before + pair@);
            lemma_chunks_append(before, pair@, 2);
            lemma_join_push(chunks_of(before, 2), pair@);
        }
        if i > 0 {
            push_char(&mut r, ' ');
        }
        let ps = string_of(&pair);
        r.append(ps.as_str());
        if i + 1 < n {
            i += 2;
        } else {
            i = n;
            proof {
                assert(chars@.take(n as int) =~= chars@);
            }
        }
        proof {
            assert(chars@.take(i as int) =~= chars@.take(next_i));
            assert(r@ =~= join_spaced(chunks_of(chars@.take(i as int), 2)));
        }
    }
    assert(chars@.take(n as int) =~= text@);
    r
}


/// The words of `text`, split at Unicode white space, in order.
pub fn words_of(text: &str) -> (r: Vec<String>)
    ensures
        r.deep_view() == words(text@),
{
    let chars = chars_of(text);
    let n = chars.len();
    let mut r: Vec<String> = Vec::new();
    let mut current: Vec<char> = Vec::new();
    let mut i: usize = 0;
    assert(chars@.skip(0) =~= chars@);
    assert(r.deep_view() =~= Seq::<Seq<char>>::empty());
    while i < n
        invariant
            n == chars@.len(),
            i <= n,
            words(chars@) == r.deep_view() + split_runs(chars@.skip(i as int), current@),
        decreases n - i,
    {
        let c = chars[i];
        let ghost rest = chars@.skip(i as int);
        assert(rest[0] == c);
        assert(rest.skip(1) =~= chars@.skip(i + 1));
        if char_is_whitespace(c) {
            if current.len() > 0 {
                let ghost old_r = r.deep_view();
                let word = string_of(&current);
                r.push(word);
                assert(r.deep_view() =~= old_r.push(current@));
                assert(old_r + split_runs(rest, current@) =~= r.deep_view() + split_runs(chars@.skip(i + 1), Seq::empty()));
            } else {
                assert(split_runs(rest, current@) =~= split_runs(chars@.skip(i + 1), Seq::empty()));
            }
            current = Vec::new();
        } else {
            current.push(c);
        }
        i += 1;
    }
    assert(chars@.skip(n as int) =~= Seq::<char>::empty());
    if current.len() > 0 {
        let ghost old_r = r.deep_view();
        let word = string_of(&current);
        r.push(word);
        assert(r.deep_view() =~= old_r.push(current@));
        assert(old_r + seq![current@] =~= r.deep_view());
    } else {
        assert(r.deep_view() + Seq::<Seq<char>>::empty() =~= r.deep_view());
    }
    r
}

/// The decimal digit character of `d`.
fn digit(d: u64) -> (c: char)
    requires
        d < 10,
    ensures
        c == digit_char(d as int),
{
    let b: u8 = 48 + d as u8;
    b as char
}

/// The decimal text of `n`.
pub fn decimal_string(n: u64) -> (s: String)
    ensures
        s@ == decimal(n as nat),
    decreases n,
{
    if n < 10 {
        let mut s = String::new();
        push_char(&mut s, digit(n));
        assert(s@ =~= seq![digit_char(n as int)]);
        s
    } else {
        let mut s = decimal_string(n / 10);
        push_char(&mut s, digit(n % 10));
        s
    }
}

/// The words of `text`, sixteen to a row: the cells of the hex table.
pub fn rows_of_words(text: &str, width: usize) -> (rows: Vec<Vec<String>>)
    requires
        width > 0,
    ensures
        rows.deep_view() == chunks_of(words(text@), width as nat),
{
    let w = words_of(text);
    let n = w.len();
    let mut rows: Vec<Vec<String>> = Vec::new();
    let mut i: usize = 0;
    proof {
        assert(w.deep_view().take(0) =~= Seq::<Seq<char>>::empty());
        assert(rows.deep_view() =~= chunks_of(w.deep_view().take(0), width as nat));
    }
    while i < n
        invariant
            n == w@.len(),
            width > 0,
            i <= n,
            i < n ==> i % width == 0,
            rows.deep_view() == chunks_of(w.deep_view().take(i as int), width as nat),
        decreases n - i,
    {
        let ghost before = w.deep_view().take(i as int);
        let ghost start = i;
        let mut row: Vec<String> = Vec::new();
        let mut j: usize = i;
        let end: usize = if n - i < width { n } else { i + width };
        while j < end
            invariant
                n == w@.len(),
                i < end <= n,
                end - i <= width,
                i <= j <= end,
                row.deep_view() == w.deep_view().subrange(i as int, j as int),
            decreases end - j,
        {
            let cell = w[j].clone();
            assert(cell@ == w.deep_view()[j as int]);
            let ghost old_row = row.deep_view();
            row.push(cell);
            assert(row.deep_view() =~= old_row.push(cell@));
            j += 1;
            assert(row.deep_view() =~= w.deep_view().subrange(i as int, j as int));
        }
        proof {
            assert(w.deep_view().take(end as int) =~= before + row.deep_view());
            lemma_chunks_append(before, row.deep_view(), width as nat);
        }
        let ghost old_rows = rows.deep_view();
        rows.push(row);
        assert(rows.deep_view() =~= old_rows.push(row.deep_view()));
        i = end;
        proof {
            if i < n {
                assert(end == start + width);
                assert(i % width == 0) by (nonlinear_arith)
                    requires
                        i == end,
                        end == start + width,
                        start % width == 0,
                        width > 0,
                ;
            }
        }
    }
    assert(w.deep_view().take(n as int) =~= w.deep_view());
    rows
}


/// Whether no character of `s` is white space.
pub open spec fn no_white_space(s: Seq<char>) -> bool {
    forall|i: int| 0 <= i < s.len() ==> !is_white_space(#[trigger] s[i])
}

/// The two-digit hex text of each byte of `data`, one entry per byte.
pub open spec fn hex_cells(data: Seq<u8>) -> Seq<Seq<char>> {
    Seq::new(data.len(), |i: int| hex_byte(data[i]))
}

/// A run without white space extends the run in progress.
proof fn lemma_split_runs_plain(a: Seq<char>, rest: Seq<char>, current: Seq<char>)
    requires
        no_white_space(a),
    ensures
        split_runs(a + rest, current) == split_runs(rest, current + a),
    decreases a.len(),
{
    if a.len() == 0 {
        assert(a + rest =~= rest);
        assert(current + a =~= current);
    } else {
        assert((a + rest)[0] == a[0]);
        assert((a + rest).skip(1) =~= a.skip(1) + rest);
        assert(no_white_space(a.skip(1))) by {
            assert forall|i: int| 0 <= i < a.skip(1).len() implies !is_white_space(#[trigger] a.skip(1)[i]) by {
                assert(a.skip(1)[i] == a[i + 1]);
            }
        }
        lemma_split_runs_plain(a.skip(1), rest, current.push(a[0]));
        assert(current.push(a[0]) + a.skip(1) =~= current + a);
    }
}

/// Splitting pieces joined with spaces at white space gives the pieces back,
/// when each piece is non-empty and holds no white space.
pub proof fn lemma_words_of_joined(parts: Seq<Seq<char>>)
    requires
        forall|k: int| 0 <= k < parts.len() ==> (#[trigger] parts[k]).len() > 0 && no_white_space(parts[k]),
    ensures
        words(join_spaced(parts)) == parts,
    decreases parts.len(),
{
    if parts.len() == 0 {
        assert(words(join_spaced(parts)) =~= parts);
    } else if parts.len() == 1 {
        lemma_split_runs_plain(parts[0], Seq::empty(), Seq::empty());
        assert(parts[0] + Seq::<char>::empty() =~= parts[0]);
        assert(Seq::<char>::empty() + parts[0] =~= parts[0]);
        assert(words(join_spaced(parts)) =~= parts);
    } else {
        let j = join_spaced(parts.skip(1));
        assert(parts[1] == parts.skip(1)[0]);
        assert forall|k: int| 0 <= k < parts.skip(1).len() implies (#[trigger] parts.skip(1)[k]).len() > 0
            && no_white_space(parts.skip(1)[k]) by {
            assert(parts.skip(1)[k] == parts[k + 1]);
        }
        lemma_words_of_joined(parts.skip(1));
        assert(join_spaced(parts) =~= parts[0] + (seq![' '] + j));
        lemma_split_runs_plain(parts[0], seq![' '] + j, Seq::empty());
        assert(Seq::<char>::empty() + parts[0] =~= parts[0]);
        let sp = seq![' '] + j;
        assert(sp[0] == ' ');
        assert(sp.skip(1) =~= j);
        assert(split_runs(sp, parts[0]) =~= seq![parts[0]] + split_runs(j, Seq::empty()));
        assert(words(join_spaced(parts)) =~= parts);
    }
}

/// The chunks of text without white space are non-empty and hold no white
/// space.
pub proof fn lemma_chunks_plain(s: Seq<char>, n: nat)
    requires
        n > 0,
        no_white_space(s),
    ensures
        forall|k: int| 0 <= k < chunks_of(s, n).len() ==> (#[trigger] chunks_of(s, n)[k]).len() > 0
            && no_white_space(chunks_of(s, n)[k]),
    decreases s.len(),
{
    if s.len() == 0 || s.len() <= n {
    } else {
        let first = s.take(n as int);
        let rest = s.skip(n as int);
        assert(no_white_space(first)) by {
            assert forall|i: int| 0 <= i < first.len() implies !is_white_space(#[trigger] first[i]) by {
                assert(first[i] == s[i]);
            }
        }
        assert(no_white_space(rest)) by {
            assert forall|i: int| 0 <= i < rest.len() implies !is_white_space(#[trigger] rest[i]) by {
                assert(rest[i] == s[i + n]);
            }
        }
        lemma_chunks_plain(rest, n);
        assert forall|k: int| 0 <= k < chunks_of(s, n).len() implies (#[trigger] chunks_of(s, n)[k]).len() > 0
            && no_white_space(chunks_of(s, n)[k]) by {
            if k > 0 {
                assert(chunks_of(s, n)[k] == chunks_of(rest, n)[k - 1]);
            }
        }
    }
}

/// Text without white space, shown in spaced pairs, splits back into its pairs.
pub proof fn lemma_words_of_spaced_pairs(s: Seq<char>)
    requires
        no_white_space(s),
    ensures
        words(spaced_pairs(s)) == chunks_of(s, 2),
{
    lemma_chunks_plain(s, 2);
    lemma_words_of_joined(chunks_of(s, 2));
}

/// Hex text holds no white space.
pub proof fn lemma_hex_plain(data: Seq<u8>)
    ensures
        no_white_space(hex_lower(data)),
{
    assert forall|i: int| 0 <= i < hex_lower(data).len() implies !is_white_space(#[trigger] hex_lower(data)[i]) by {
        let b = data[i / 2];
        let v: int = if i % 2 == 0 { (b / 16) as int } else { (b % 16) as int };
        assert(0 <= v < 16);
        assert(hex_lower(data)[i] == hex_digit(v));
    }
}

/// Hex text in pairs is the hex of each byte.
pub proof fn lemma_hex_pairs(data: Seq<u8>)
    ensures
        chunks_of(hex_lower(data), 2) == hex_cells(data),
    decreases data.len(),
{
    let h = hex_lower(data);
    if data.len() == 0 {
        assert(chunks_of(h, 2) =~= hex_cells(data));
    } else {
        assert(h.take(2) =~= hex_byte(data[0]));
        if data.len() == 1 {
            assert(h =~= hex_byte(data[0]));
            assert(chunks_of(h, 2) =~= hex_cells(data));
        } else {
            assert(h.skip(2) =~= hex_lower(data.skip(1)));
            lemma_hex_pairs(data.skip(1));
            assert(chunks_of(h, 2) =~= hex_cells(data));
        }
    }
}

/// The words of a ciphertext's spaced hex text are the hex of its bytes, one
/// word per byte.
pub proof fn lemma_words_of_spaced_hex(data: Seq<u8>)
    ensures
        words(spaced_pairs(hex_lower(data))) == hex_cells(data),
{
    lemma_hex_plain(data);
    lemma_words_of_spaced_pairs(hex_lower(data));
    lemma_hex_pairs(data);
}

} // verus!
