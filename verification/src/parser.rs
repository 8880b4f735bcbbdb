use vstd::prelude::*;
use vstd::string::StringExecFns;

verus! {

/// Whitespace for token splitting: the ASCII separators of the wire format.
pub open spec fn is_space(c: char) -> bool {
    c == ' ' || c == '\t' || c == '\r' || c == '\n'
}

/// The whitespace-separated tokens of `s`, in order: the maximal runs of
/// non-space characters.
pub open spec fn tokens_of(s: Seq<char>) -> Seq<Seq<char>>
    decreases s.len(),
{
    if s.len() == 0 {
        Seq::empty()
    } else {
        let rest = tokens_of(s.drop_first());
        if is_space(s[0]) {
            rest
        } else if s.len() > 1 && !is_space(s[1]) {
            rest.update(0, seq![s[0]] + rest[0])
        } else {
            seq![seq![s[0]]] + rest
        }
    }
}

/// A raw line parses when it begins with the '/' command marker.
pub open spec fn parse_ok(s: Seq<char>) -> bool {
    s.len() > 0 && s[0] == '/'
}

/// A maximal non-space run of length `k` at the front of `t` is the first
/// token of `t`, and the remaining tokens are those of the rest.
proof fn lemma_token_head(t: Seq<char>, k: int)
    requires
        0 < k <= t.len(),
        forall|m: int| 0 <= m < k ==> !is_space(t[m]),
        k == t.len() || is_space(t[k]),
    ensures
        tokens_of(t) == seq![t.take(k)] + tokens_of(t.skip(k)),
    decreases k,
{
    let td = t.drop_first();
    let rest = tokens_of(td);
    if k == 1 {
        assert(t.skip(1) =~= td);
        assert(seq![t[0]] =~= t.take(1));
        if t.len() == 1 {
            assert(tokens_of(t) =~= seq![t.take(1)] + tokens_of(t.skip(1)));
        } else {
            assert(is_space(t[1]));
            assert(tokens_of(t) =~= seq![t.take(1)] + tokens_of(t.skip(1)));
        }
    } else {
        assert(!is_space(t[1]));
        assert(forall|m: int| 0 <= m < k - 1 ==> !is_space(td[m]));
        lemma_token_head(td, k - 1);
        assert(rest == seq![td.take(k - 1)] + tokens_of(td.skip(k - 1)));
        assert(rest[0] == td.take(k - 1));
        assert(tokens_of(t) == rest.update(0, seq![t[0]] + rest[0]));
        assert(seq![t[0]] + td.take(k - 1) =~= t.take(k));
        assert(td.skip(k - 1) =~= t.skip(k));
        assert(rest.update(0, seq![t[0]] + rest[0]) =~= seq![t.take(k)] + tokens_of(t.skip(k)));
    }
}

fn is_space_exec(c: char) -> (b: bool)
    ensures
        b == is_space(c),
{
    c == ' ' || c == '\t' || c == '\r' || c == '\n'
}

/// Splits `s` on whitespace into its tokens, in order.
pub fn tokenize(s: &str) -> (r: Vec<String>)
    ensures
        r.deep_view() == tokens_of(s@),
{
    let n = s.unicode_len();
    let mut out: Vec<String> = Vec::new();
    let mut i: usize = 0;
    proof {
        assert(s@.skip(0) =~= s@);
        assert(out.deep_view() + tokens_of(s@) =~= tokens_of(s@));
    }
    while i < n
        invariant
            n == s@.len(),
            i <= n,
            tokens_of(s@) == out.deep_view() + tokens_of(s@.skip(i as int)),
        decreases n - i,
    {
        let c = s.get_char(i);
        if is_space_exec(c) {
            proof {
                assert(s@.skip(i as int).drop_first() =~= s@.skip(i as int + 1));
            }
            i += 1;
        } else {
            let mut j = i + 1;
            while j < n && !is_space_exec(s.get_char(j))
                invariant
                    n == s@.len(),
                    i < j <= n,
                    forall|m: int| i <= m < j ==> !is_space(s@[m]),
                decreases n - j,
            {
                j += 1;
            }
            let token = String::from_str(s.substring_char(i, j));
            let ghost prev = out.deep_view();
            out.push(token);
            proof {
                let si = s@.skip(i as int);
                assert(forall|m: int| 0 <= m < j - i ==> !is_space(si[m]));
                lemma_token_head(si, j - i);
                assert(si.take(j - i) =~= s@.subrange(i as int, j as int));
                assert(si.skip(j - i) =~= s@.skip(j as int));
                assert(out.deep_view() =~= prev.push(token@));
                assert(out.deep_view() + tokens_of(s@.skip(j as int)) =~= prev + tokens_of(
                    s@.skip(i as int),
                ));
            }
            i = j;
        }
    }
    proof {
        assert(s@.skip(n as int) =~= Seq::<char>::empty());
        assert(out.deep_view() + tokens_of(s@.skip(n as int)) =~= out.deep_view());
    }
    out
}

/// Splits a raw client line into command-name and argument tokens. The line
/// must begin with the '/' command marker; the rest is split on whitespace.
/// A line without the marker (the empty line included) is a recoverable parse
/// failure, never a fault.
pub fn parse_command(line: &str) -> (r: Option<Vec<String>>)
    ensures
        r is Some <==> parse_ok(line@),
        r is Some ==> r->0.deep_view() == tokens_of(line@.drop_first()),
{
    if line.is_empty() {
        return None;
    }
    let c = line.get_char(0);
    if c != '/' {
        return None;
    }
    let n = line.unicode_len();
    let rest = line.substring_char(1, n);
    proof {
        assert(rest@ =~= line@.drop_first());
    }
    Some(tokenize(rest))
}

} // verus!
