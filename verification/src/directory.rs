use vstd::prelude::*;

use crate::Errors;
use crate::fold::{lower_of, lowercase};

verus! {

/// Registration state of one connection: created by a successful NICK, its
/// username filled in by a later USER. Both stored strings are case-folded.
pub struct Record {
    pub identity: String,
    pub nickname: String,
    pub username: Option<String>,
}

/// The shared user directory: one record per registered connection identity.
pub struct Directory {
    pub records: Vec<Record>,
}

pub open spec fn opt_view(o: Option<String>) -> Option<Seq<char>> {
    match o {
        Some(s) => Some(s@),
        None => None,
    }
}

/// Well-formedness: connection identities are pairwise distinct, and so are
/// the stored case-folded nicknames.
pub open spec fn dir_wf(s: Seq<Record>) -> bool {
    forall|i: int, j: int|
        0 <= i < j < s.len() ==> s[i].identity@ != s[j].identity@ && s[i].nickname@
            != s[j].nickname@
}

pub open spec fn has_identity(s: Seq<Record>, id: Seq<char>) -> bool {
    exists|i: int| 0 <= i < s.len() && s[i].identity@ == id
}

/// Some record for an identity other than `id` already holds nickname `n`.
pub open spec fn nick_taken_by_other(s: Seq<Record>, n: Seq<char>, id: Seq<char>) -> bool {
    exists|i: int| 0 <= i < s.len() && s[i].nickname@ == n && s[i].identity@ != id
}

/// Relation between the directory before and after a nickname registration for
/// `id` whose candidate case-folds to `folded`, with outcome `r`.
pub open spec fn register_nick_post(
    pre: Seq<Record>,
    post: Seq<Record>,
    id: Seq<char>,
    folded: Seq<char>,
    r: Result<(), Errors>,
) -> bool {
    if folded.len() == 0 {
        r == Err::<(), Errors>(Errors::ErrNoNickNameGiven) && post == pre
    } else if nick_taken_by_other(pre, folded, id) {
        r == Err::<(), Errors>(Errors::ErrNickNameInUse) && post == pre
    } else if has_identity(pre, id) {
        r == Ok::<(), Errors>(()) && post.len() == pre.len() && exists|i: int|
            0 <= i < pre.len() && pre[i].identity@ == id && post[i].identity@ == id
                && post[i].nickname@ == folded && opt_view(post[i].username) == opt_view(
                pre[i].username,
            ) && (forall|j: int| 0 <= j < pre.len() && j != i ==> post[j] == pre[j])
    } else {
        r == Ok::<(), Errors>(()) && post.len() == pre.len() + 1 && post.subrange(
            0,
            pre.len() as int,
        ) == pre && post[pre.len() as int].identity@ == id && post[pre.len() as int].nickname@
            == folded && post[pre.len() as int].username is None
    }
}

/// Relation between the directory before and after a username registration for
/// `id` whose argument case-folds to `folded`, with outcome `r`.
pub open spec fn register_username_post(
    pre: Seq<Record>,
    post: Seq<Record>,
    id: Seq<char>,
    folded: Seq<char>,
    r: Result<(), Errors>,
) -> bool {
    if has_identity(pre, id) {
        r == Ok::<(), Errors>(()) && post.len() == pre.len() && exists|i: int|
            0 <= i < pre.len() && pre[i].identity@ == id && post[i].identity@ == id
                && post[i].nickname@ == pre[i].nickname@ && opt_view(post[i].username) == Some(
                folded,
            ) && (forall|j: int| 0 <= j < pre.len() && j != i ==> post[j] == pre[j])
    } else {
        r == Err::<(), Errors>(Errors::ErrNoSuchIdentity) && post == pre
    }
}

/// The usernames of all records that have one set, in directory order.
pub open spec fn usernames_of(s: Seq<Record>) -> Seq<Seq<char>>
    decreases s.len(),
{
    if s.len() == 0 {
        Seq::empty()
    } else {
        let rest = usernames_of(s.drop_last());
        match opt_view(s.last().username) {
            Some(u) => rest.push(u),
            None => rest,
        }
    }
}

/// A record matches `name` when its nickname or its username equals it.
pub open spec fn rec_matches(r: Record, name: Seq<char>) -> bool {
    r.nickname@ == name || opt_view(r.username) == Some(name)
}

/// The identities of all records matching `name`, in directory order.
pub open spec fn matches_of(s: Seq<Record>, name: Seq<char>) -> Seq<Seq<char>>
    decreases s.len(),
{
    if s.len() == 0 {
        Seq::empty()
    } else {
        let rest = matches_of(s.drop_last(), name);
        if rec_matches(s.last(), name) {
            rest.push(s.last().identity@)
        } else {
            rest
        }
    }
}

pub open spec fn rec_matches_any(r: Record, names: Seq<Seq<char>>) -> bool {
    exists|k: int| 0 <= k < names.len() && rec_matches(r, names[k])
}

/// The identities of all records matching at least one of `names`, in
/// directory order; each identity occurs at most once.
pub open spec fn matches_any_of(s: Seq<Record>, names: Seq<Seq<char>>) -> Seq<Seq<char>>
    decreases s.len(),
{
    if s.len() == 0 {
        Seq::empty()
    } else {
        let rest = matches_any_of(s.drop_last(), names);
        if rec_matches_any(s.last(), names) {
            rest.push(s.last().identity@)
        } else {
            rest
        }
    }
}

fn clone_opt_string(o: &Option<String>) -> (r: Option<String>)
    ensures
        opt_view(r) == opt_view(*o),
{
    match o {
        Some(s) => Some(s.clone()),
        None => None,
    }
}

impl Directory {
    pub open spec fn wf(self) -> bool {
        dir_wf(self.records@)
    }

    pub fn new() -> (d: Directory)
        ensures
            d.wf(),
            d.records@.len() == 0,
    {
        Directory { records: Vec::new() }
    }

    /// Atomic check-then-insert: registers the case-folded candidate nickname
    /// for `identity` unless it is empty or held by a different identity.
    pub fn register_nick(&mut self, identity: &String, candidate: &String) -> (r: Result<
        (),
        Errors,
    >)
        requires
            old(self).wf(),
        ensures
            final(self).wf(),
            register_nick_post(
                old(self).records@,
                final(self).records@,
                identity@,
                lower_of(candidate@),
                r,
            ),
            lower_of(candidate@).len() == 0 <==> candidate@.len() == 0,
    {
        let folded = lowercase(candidate.as_str());
        if folded.as_str().is_empty() {
            return Err(Errors::ErrNoNickNameGiven);
        }
        let n = self.records.len();
        let mut own: Option<usize> = None;
        let mut i: usize = 0;
        while i < n
            invariant
                old(self).wf(),
                *self == *old(self),
                n == self.records@.len(),
                folded@ == lower_of(candidate@),
                folded@.len() > 0,
                (lower_of(candidate@).len() == 0 <==> candidate@.len() == 0),
                i <= n,
                forall|j: int|
                    0 <= j < i ==> !(self.records@[j].nickname@ == folded@
                        && self.records@[j].identity@ != identity@),
                match own {
                    Some(k) => k < i && self.records@[k as int].identity@ == identity@,
                    None => forall|j: int| 0 <= j < i ==> self.records@[j].identity@ != identity@,
                },
            decreases n - i,
        {
            let rec = &self.records[i];
            if rec.nickname.eq(&folded) && !rec.identity.eq(identity) {
                return Err(Errors::ErrNickNameInUse);
            }
            if rec.identity.eq(identity) {
                own = Some(i);
            }
            i += 1;
        }
        match own {
            Some(k) => {
                let user = clone_opt_string(&self.records[k].username);
                let rec = Record { identity: identity.clone(), nickname: folded, username: user };
                self.records[k] = rec;
                proof {
                    let pre = old(self).records@;
                    let post = self.records@;
                    assert(forall|j: int| 0 <= j < pre.len() && j != k ==> post[j] == pre[j]);
                    assert forall|a: int, b: int| 0 <= a < b < post.len() implies post[a].identity@
                        != post[b].identity@ && post[a].nickname@ != post[b].nickname@ by {
                        assert(pre[a].identity@ != pre[b].identity@ && pre[a].nickname@
                            != pre[b].nickname@);
                    }
                }
                Ok(())
            },
            None => {
                self.records.push(
                    Record { identity: identity.clone(), nickname: folded, username: None },
                );
                proof {
                    let pre = old(self).records@;
                    let post = self.records@;
                    assert(post.subrange(0, pre.len() as int) =~= pre);
                    assert forall|a: int, b: int| 0 <= a < b < post.len() implies post[a].identity@
                        != post[b].identity@ && post[a].nickname@ != post[b].nickname@ by {
                        if b < pre.len() {
                            assert(pre[a].identity@ != pre[b].identity@ && pre[a].nickname@
                                != pre[b].nickname@);
                        }
                    }
                }
                Ok(())
            },
        }
    }

    /// Stores the case-folded username on the existing record for `identity`;
    /// fails when no NICK was ever completed for this identity.
    pub fn register_username(&mut self, identity: &String, username: &String) -> (r: Result<
        (),
        Errors,
    >)
        requires
            old(self).wf(),
        ensures
            final(self).wf(),
            register_username_post(
                old(self).records@,
                final(self).records@,
                identity@,
                lower_of(username@),
                r,
            ),
    {
        let folded = lowercase(username.as_str());
        let n = self.records.len();
        let mut i: usize = 0;
        while i < n
            invariant
                old(self).wf(),
                *self == *old(self),
                n == self.records@.len(),
                folded@ == lower_of(username@),
                i <= n,
                forall|j: int| 0 <= j < i ==> self.records@[j].identity@ != identity@,
            decreases n - i,
        {
            if self.records[i].identity.eq(identity) {
                let nick = self.records[i].nickname.clone();
                let rec = Record {
                    identity: identity.clone(),
                    nickname: nick,
                    username: Some(folded),
                };
                self.records[i] = rec;
                proof {
                    let pre = old(self).records@;
                    let post = self.records@;
                    assert forall|a: int, b: int| 0 <= a < b < post.len() implies post[a].identity@
                        != post[b].identity@ && post[a].nickname@ != post[b].nickname@ by {
                        assert(pre[a].identity@ != pre[b].identity@ && pre[a].nickname@
                            != pre[b].nickname@);
                    }
                }
                return Ok(());
            }
            i += 1;
        }
        Err(Errors::ErrNoSuchIdentity)
    }

    /// The username of every record that has one set, in directory order.
    /// Callers must not depend on the order.
    pub fn list_usernames(&self) -> (r: Vec<String>)
        ensures
            r.deep_view() == usernames_of(self.records@),
    {
        let mut out: Vec<String> = Vec::new();
        let n = self.records.len();
        let mut i: usize = 0;
        while i < n
            invariant
                n == self.records@.len(),
                i <= n,
                out.deep_view() == usernames_of(self.records@.take(i as int)),
            decreases n - i,
        {
            proof {
                assert(self.records@.take(i as int + 1).drop_last() =~= self.records@.take(
                    i as int,
                ));
            }
            let rec = &self.records[i];
            match &rec.username {
                Some(u) => {
                    let ghost prev = out.deep_view();
                    out.push(u.clone());
                    proof {
                        assert(out.deep_view() =~= prev.push(u@));
                    }
                },
                None => {},
            }
            i += 1;
        }
        proof {
            assert(self.records@.take(n as int) =~= self.records@);
        }
        out
    }

    /// Every connection identity whose record holds `name` as nickname or as
    /// username, compared exactly against the stored, already-folded values.
    pub fn find_identities_by_name(&self, name: &String) -> (r: Vec<String>)
        ensures
            r.deep_view() == matches_of(self.records@, name@),
    {
        let mut out: Vec<String> = Vec::new();
        let n = self.records.len();
        let mut i: usize = 0;
        while i < n
            invariant
                n == self.records@.len(),
                i <= n,
                out.deep_view() == matches_of(self.records@.take(i as int), name@),
            decreases n - i,
        {
            proof {
                assert(self.records@.take(i as int + 1).drop_last() =~= self.records@.take(
                    i as int,
                ));
            }
            let rec = &self.records[i];
            if record_matches(rec, name) {
                let ghost prev = out.deep_view();
                out.push(rec.identity.clone());
                proof {
                    assert(out.deep_view() =~= prev.push(rec.identity@));
                }
            }
            i += 1;
        }
        proof {
            assert(self.records@.take(n as int) =~= self.records@);
        }
        out
    }

    /// Every connection identity whose record matches at least one of `names`.
    pub fn find_identities_matching_any(&self, names: &Vec<String>) -> (r: Vec<String>)
        ensures
            r.deep_view() == matches_any_of(self.records@, names.deep_view()),
    {
        let mut out: Vec<String> = Vec::new();
        let n = self.records.len();
        let mut i: usize = 0;
        while i < n
            invariant
                n == self.records@.len(),
                i <= n,
                out.deep_view() == matches_any_of(self.records@.take(i as int), names.deep_view()),
            decreases n - i,
        {
            proof {
                assert(self.records@.take(i as int + 1).drop_last() =~= self.records@.take(
                    i as int,
                ));
            }
            let rec = &self.records[i];
            if record_matches_any(rec, names) {
                let ghost prev = out.deep_view();
                out.push(rec.identity.clone());
                proof {
                    assert(out.deep_view() =~= prev.push(rec.identity@));
                }
            }
            i += 1;
        }
        proof {
            assert(self.records@.take(n as int) =~= self.records@);
        }
        out
    }

    /// Deletes the record of a terminated connection, if any; every other
    /// record is kept in order.
    pub fn remove(&mut self, identity: &String)
        requires
            old(self).wf(),
        ensures
            final(self).wf(),
            !has_identity(old(self).records@, identity@) ==> final(self).records@ == old(
                self,
            ).records@,
            has_identity(old(self).records@, identity@) ==> exists|i: int|
                0 <= i < old(self).records@.len() && old(self).records@[i].identity@ == identity@
                    && final(self).records@ == old(self).records@.remove(i),
    {
        let n = self.records.len();
        let mut i: usize = 0;
        while i < n
            invariant
                old(self).wf(),
                *self == *old(self),
                n == self.records@.len(),
                i <= n,
                forall|j: int| 0 <= j < i ==> self.records@[j].identity@ != identity@,
            decreases n - i,
        {
            if self.records[i].identity.eq(identity) {
                self.records.remove(i);
                proof {
                    let pre = old(self).records@;
                    let post = self.records@;
                    assert forall|a: int, b: int| 0 <= a < b < post.len() implies post[a].identity@
                        != post[b].identity@ && post[a].nickname@ != post[b].nickname@ by {
                        let a0 = if a < i { a } else { a + 1 };
                        let b0 = if b < i { b } else { b + 1 };
                        assert(post[a] == pre[a0] && post[b] == pre[b0]);
                        assert(pre[a0].identity@ != pre[b0].identity@ && pre[a0].nickname@
                            != pre[b0].nickname@);
                    }
                }
                return ;
            }
            i += 1;
        }
    }
}

fn record_matches(rec: &Record, name: &String) -> (b: bool)
    ensures
        b == rec_matches(*rec, name@),
{
    if rec.nickname.eq(name) {
        return true;
    }
    match &rec.username {
        Some(u) => u.eq(name),
        None => false,
    }
}

fn record_matches_any(rec: &Record, names: &Vec<String>) -> (b: bool)
    ensures
        b == rec_matches_any(*rec, names.deep_view()),
{
    let n = names.len();
    let mut k: usize = 0;
    while k < n
        invariant
            n == names@.len(),
            k <= n,
            forall|j: int| 0 <= j < k ==> !rec_matches(*rec, names.deep_view()[j]),
        decreases n - k,
    {
        if record_matches(rec, &names[k]) {
            proof {
                assert(names.deep_view()[k as int] == names@[k as int]@);
            }
            return true;
        }
        k += 1;
    }
    false
}

/// In a well-formed directory, a case-folded nickname is held by at most one
/// record, hence by at most one connection identity.
pub proof fn lemma_nickname_unique(d: Directory, i: int, j: int)
    requires
        d.wf(),
        0 <= i < d.records@.len(),
        0 <= j < d.records@.len(),
        d.records@[i].nickname@ == d.records@[j].nickname@,
    ensures
        i == j,
        d.records@[i].identity@ == d.records@[j].identity@,
{
}

proof fn lemma_matches_any_mem(s: Seq<Record>, names: Seq<Seq<char>>, x: Seq<char>)
    requires
        matches_any_of(s, names).contains(x),
    ensures
        exists|i: int| 0 <= i < s.len() && s[i].identity@ == x,
    decreases s.len(),
{
    let all = matches_any_of(s, names);
    let k = choose|k: int| 0 <= k < all.len() && all[k] == x;
    let rest = matches_any_of(s.drop_last(), names);
    if rec_matches_any(s.last(), names) && k == rest.len() {
        assert(s[s.len() - 1].identity@ == x);
    } else {
        assert(rest[k] == x);
        lemma_matches_any_mem(s.drop_last(), names, x);
        let i = choose|i: int|
            0 <= i < s.drop_last().len() && s.drop_last()[i].identity@ == x;
        assert(s[i].identity@ == x);
    }
}

/// A connection identity is listed at most once among the matches for a set
/// of names, even when its record matches several of them: in a well-formed
/// directory the matched identities are pairwise distinct.
pub proof fn lemma_matches_any_distinct(s: Seq<Record>, names: Seq<Seq<char>>)
    requires
        dir_wf(s),
    ensures
        forall|i: int, j: int|
            0 <= i < j < matches_any_of(s, names).len() ==> matches_any_of(s, names)[i]
                != matches_any_of(s, names)[j],
    decreases s.len(),
{
    if s.len() > 0 {
        assert(dir_wf(s.drop_last()));
        lemma_matches_any_distinct(s.drop_last(), names);
        let rest = matches_any_of(s.drop_last(), names);
        if rec_matches_any(s.last(), names) {
            assert forall|k: int| 0 <= k < rest.len() implies rest[k] != s.last().identity@ by {
                if rest[k] == s.last().identity@ {
                    assert(rest.contains(rest[k]));
                    lemma_matches_any_mem(s.drop_last(), names, rest[k]);
                    let i = choose|i: int|
                        0 <= i < s.drop_last().len() && s.drop_last()[i].identity@ == rest[k];
                    assert(s[i].identity@ == s[s.len() - 1].identity@);
                    assert(false);
                }
            }
        }
    }
}

/// Of two nickname registrations for the same non-empty case-folded name by
/// different identities, applied one after the other, the second always fails
/// with `ErrNickNameInUse` and leaves the directory exactly as the first left
/// it: two racing NICK requests are serialized and only one can win.
pub proof fn lemma_nick_race(
    pre: Seq<Record>,
    mid: Seq<Record>,
    post: Seq<Record>,
    id1: Seq<char>,
    id2: Seq<char>,
    folded: Seq<char>,
    r2: Result<(), Errors>,
)
    requires
        id1 != id2,
        register_nick_post(pre, mid, id1, folded, Ok(())),
        register_nick_post(mid, post, id2, folded, r2),
    ensures
        r2 == Err::<(), Errors>(Errors::ErrNickNameInUse),
        post == mid,
{
    assert(folded.len() > 0);
    if has_identity(pre, id1) {
        let i = choose|i: int|
            0 <= i < pre.len() && pre[i].identity@ == id1 && mid[i].identity@ == id1
                && mid[i].nickname@ == folded && opt_view(mid[i].username) == opt_view(
                pre[i].username,
            ) && (forall|j: int| 0 <= j < pre.len() && j != i ==> mid[j] == pre[j]);
        assert(mid[i].nickname@ == folded && mid[i].identity@ != id2);
        assert(nick_taken_by_other(mid, folded, id2));
    } else {
        let i = pre.len() as int;
        assert(mid[i].nickname@ == folded && mid[i].identity@ != id2);
        assert(nick_taken_by_other(mid, folded, id2));
    }
}

} // verus!
