use vstd::prelude::*;

verus! {

/// Whether `needle` occurs in `hay` as a contiguous run of characters.
pub open spec fn spec_str_contains(hay: Seq<char>, needle: Seq<char>) -> bool {
    exists|i: int|
        0 <= i <= hay.len() - needle.len() && #[trigger] hay.subrange(i, i + needle.len() as int)
            == needle
}

/// `s` repeated `count` times.
pub open spec fn spec_repeat(s: Seq<char>, count: nat) -> Seq<char>
    decreases count,
{
    if count == 0 {
        Seq::empty()
    } else {
        s + spec_repeat(s, (count - 1) as nat)
    }
}

/// Relies on `String::push`: appends exactly the given character.
#[verifier::external_body]
pub fn push_char(s: &mut String, c: char)
    ensures
        final(s)@ == old(s)@.push(c),
{
    s.push(c)
}

/// The characters of a string slice, in order.
pub fn str_to_chars(s: &str) -> (v: Vec<char>)
    ensures
        v@ == s@,
{
    let n = s.unicode_len();
    let mut v: Vec<char> = Vec::new();
    let mut i: usize = 0;
    while i < n
        invariant
            0 <= i <= n,
            n == s@.len(),
            v@ == s@.take(i as int),
        decreases n - i,
    {
        let c = s.get_char(i);
        v.push(c);
        proof {
            assert(v@ =~= s@.take(i as int + 1));
        }
        i = i + 1;
    }
    proof {
        assert(s@.take(n as int) =~= s@);
    }
    v
}

/// A string holding exactly the given characters, in order.
pub fn chars_to_string(v: &Vec<char>) -> (s: String)
    ensures
        s@ == v@,
{
    let mut s = String::new();
    let mut i: usize = 0;
    while i < v.len()
        invariant
            0 <= i <= v@.len(),
            s@ == v@.take(i as int),
        decreases v@.len() - i,
    {
        push_char(&mut s, v[i]);
        proof {
            assert(s@ =~= v@.take(i as int + 1));
        }
        i = i + 1;
    }
    proof {
        assert(v@.take(v@.len() as int) =~= v@);
    }
    s
}

/// The characters between two positions, as a new string.
pub fn chars_substring(cs: &Vec<char>, from: usize, to: usize) -> (r: String)
    requires
        from <= to <= cs@.len(),
    ensures
        r@ == cs@.subrange(from as int, to as int),
{
    let mut out: Vec<char> = Vec::new();
    let mut i: usize = from;
    while i < to
        invariant
            from <= i <= to,
            to <= cs@.len(),
            out@ =~= cs@.subrange(from as int, i as int),
        decreases to - i,
    {
        out.push(cs[i]);
        proof {
            assert(out@ =~= cs@.subrange(from as int, i as int + 1));
        }
        i = i + 1;
    }
    chars_to_string(&out)
}

/// Whether `needle` occurs in `hay` as a substring, by characters.
#[verifier::loop_isolation(false)]
pub fn str_contains(hay: &String, needle: &String) -> (r: bool)
    ensures
        r == spec_str_contains(hay@, needle@),
{
    let h = str_to_chars(hay.as_str());
    let n = str_to_chars(needle.as_str());
    if n.len() > h.len() {
        return false;
    }
    if n.len() == 0 {
        proof {
            assert(hay@.subrange(0, 0 + needle@.len() as int) =~= needle@);
        }
        return true;
    }
    let mut i: usize = 0;
    while i <= h.len() - n.len()
        invariant
            0 <= i <= h@.len() - n@.len() + 1,
            n@.len() <= h@.len(),
            h@ == hay@,
            n@ == needle@,
            forall|p: int|
                0 <= p < i ==> #[trigger] hay@.subrange(p, p + needle@.len() as int) != needle@,
        decreases h@.len() - n@.len() + 1 - i,
    {
        let mut j: usize = 0;
        let mut matched = true;
        while j < n.len()
            invariant
                0 <= j <= n@.len(),
                i + n@.len() <= h@.len(),
                h@ == hay@,
                n@ == needle@,
                matched ==> forall|q: int| 0 <= q < j ==> h@[i + q] == n@[q],
                !matched ==> hay@.subrange(i as int, i as int + needle@.len() as int) != needle@,
            decreases n@.len() - j,
        {
            if h[i + j] != n[j] {
                proof {
                    assert(hay@.subrange(i as int, i as int + needle@.len() as int)[j as int]
                        != needle@[j as int]);
                }
                matched = false;
                j = n.len();
            } else {
                j = j + 1;
            }
        }
        if matched {
            proof {
                assert(hay@.subrange(i as int, i as int + needle@.len() as int) =~= needle@);
            }
            return true;
        }
        i = i + 1;
    }
    false
}

/// `s` repeated `count` times, by concatenation.
pub fn repeat_str(s: &String, count: u64) -> (r: String)
    ensures
        r@ == spec_repeat(s@, count as nat),
{
    let mut out = String::new();
    let mut i: u64 = 0;
    while i < count
        invariant
            0 <= i <= count,
            out@ == spec_repeat(s@, i as nat),
        decreases count - i,
    {
        out.append(s.as_str());
        proof {
            lemma_repeat_step(s@, i as nat);
        }
        i = i + 1;
    }
    out
}

/// Appending one more copy extends the repetition by one.
proof fn lemma_repeat_step(s: Seq<char>, count: nat)
    ensures
        spec_repeat(s, count) + s == spec_repeat(s, count + 1),
    decreases count,
{
    if count == 0 {
        assert(spec_repeat(s, 0) + s =~= s + spec_repeat(s, 0));
    } else {
        lemma_repeat_step(s, (count - 1) as nat);
        assert(spec_repeat(s, count) + s =~= s + (spec_repeat(s, (count - 1) as nat) + s));
    }
}

} // verus!
