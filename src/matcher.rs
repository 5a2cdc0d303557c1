//! Pairing the functions of a primary program with those of a secondary one: by
//! name, and for static initializers by the source file their name embeds.
use crate::name_index::{names_of, NameIndex};
use crate::program::{Function, Program};
use vstd::prelude::*;

verus! {

broadcast use vstd::string::group_string_axioms;

/// The characters of a string.
pub fn chars_of(s: &str) -> (r: Vec<char>)
    ensures
        r@ == s@,
{
    let mut out: Vec<char> = Vec::new();
    for c in iter: s.chars()
        invariant
            out@ == iter.seq().take(iter.index() as int),
    {
        out.push(c);
    }
    out
}


/// The name prefix of a static initializer, without its optional leading underscore.
pub open spec fn initializer_prefix() -> Seq<char> {
    seq!['_', 'G', 'L', 'O', 'B', 'A', 'L', '_', '_', 's', 'u', 'b', '_', 'I', '_']
}

/// What separates the source file from the rest of a static initializer's name.
pub open spec fn initializer_marker() -> Seq<char> {
    seq!['.', 's', 't', 'd', 'o', 'u', 't', '.', 'r', 'e', 'l', '_', 't', 'f', '_', 'o', 's', 'x', '_', 'b', 'u', 'i', 'l', 'd', 'e', 'r', '.']
}

/// The suffix of a static initializer's name.
pub open spec fn initializer_suffix() -> Seq<char> {
    seq!['.', 'i', 'i']
}

/// Where the source file starts in a name of the form `_?_GLOBAL__sub_I_...`.
pub open spec fn file_start(s: Seq<char>) -> Option<int> {
    let p = initializer_prefix();
    if s.len() >= p.len() + 1 && s[0] == '_' && s.subrange(1, p.len() + 1 as int) == p {
        Some(p.len() + 1 as int)
    } else if s.len() >= p.len() && s.subrange(0, p.len() as int) == p {
        Some(p.len() as int)
    } else {
        None
    }
}

/// The marker occurs in `s` at `p`.
pub open spec fn marker_at(s: Seq<char>, p: int) -> bool {
    0 <= p && p + initializer_marker().len() <= s.len() && s.subrange(p, p + initializer_marker().len()) == initializer_marker()
}

/// The last position in `[lo, hi]` where the marker occurs.
pub open spec fn last_marker(s: Seq<char>, lo: int, hi: int) -> Option<int>
    decreases hi - lo + 1,
{
    if hi < lo {
        None
    } else if marker_at(s, hi) {
        Some(hi)
    } else {
        last_marker(s, lo, hi - 1)
    }
}

/// The source file that a static initializer's name embeds: the name matches
/// `^_?_GLOBAL__sub_I_(.*)\.stdout\.rel_tf_osx_builder\..*\.ii$`, where `.` is any
/// character but a newline, and the file is the greedy capture.
#[verifier::opaque]
pub open spec fn static_init_file(s: Seq<char>) -> Option<Seq<char>> {
    match file_start(s) {
        None => None,
        Some(n) => {
            let tail = s.len() - initializer_suffix().len();
            if tail < n + initializer_marker().len() || s.subrange(tail, s.len() as int) != initializer_suffix()
                || s.subrange(n, tail).contains('\n') {
                None
            } else {
                match last_marker(s, n, tail - initializer_marker().len()) {
                    None => None,
                    Some(p) => Some(s.subrange(n, p)),
                }
            }
        },
    }
}

/// Whether `lit` occurs in `cs` at `pos`.
fn occurs_at(cs: &Vec<char>, pos: usize, lit: &[char]) -> (r: bool)
    ensures
        r == (pos + lit@.len() <= cs@.len() && cs@.subrange(pos as int, pos + lit@.len()) == lit@),
{
    let len = cs.len();
    if pos > len || lit.len() > len - pos {
        return false;
    }
    let mut i: usize = 0;
    while i < lit.len()
        invariant
            pos + lit@.len() <= cs@.len(),
            cs@.len() <= usize::MAX,
            i <= lit@.len(),
            forall|k: int| 0 <= k < i ==> cs@[pos + k] == lit@[k],
        decreases lit@.len() - i,
    {
        if cs[pos + i] != lit[i] {
            assert(cs@.subrange(pos as int, pos + lit@.len())[i as int] != lit@[i as int]);
            return false;
        }
        i = i + 1;
    }
    assert(cs@.subrange(pos as int, pos + lit@.len()) =~= lit@);
    true
}

fn copy_range(cs: &Vec<char>, from: usize, to: usize) -> (r: Vec<char>)
    requires
        from <= to <= cs@.len(),
    ensures
        r@ == cs@.subrange(from as int, to as int),
{
    let mut out: Vec<char> = Vec::new();
    let mut i = from;
    while i < to
        invariant
            from <= i <= to <= cs@.len(),
            out@ == cs@.subrange(from as int, i as int),
        decreases to - i,
    {
        out.push(cs[i]);
        assert(cs@.subrange(from as int, i + 1) =~= cs@.subrange(from as int, i as int).push(cs@[i as int]));
        i = i + 1;
    }
    out
}

/// The source file that a static initializer's name embeds, if the name is one.
pub fn static_init_file_of(name: &str) -> (r: Option<Vec<char>>)
    ensures
        match static_init_file(name@) {
            None => r is None,
            Some(f) => r matches Some(v) && v@ == f,
        },
{
    let prefix: [char; 15] = ['_', 'G', 'L', 'O', 'B', 'A', 'L', '_', '_', 's', 'u', 'b', '_', 'I', '_'];
    let marker: [char; 27] = ['.', 's', 't', 'd', 'o', 'u', 't', '.', 'r', 'e', 'l', '_', 't', 'f', '_', 'o', 's', 'x', '_', 'b', 'u', 'i', 'l', 'd', 'e', 'r', '.'];
    let suffix: [char; 3] = ['.', 'i', 'i'];
    assert(prefix@ =~= initializer_prefix());
    assert(marker@ =~= initializer_marker());
    assert(suffix@ =~= initializer_suffix());
    let cs = chars_of(name);
    proof {
        reveal(static_init_file);
    }
    let n: usize = if cs.len() >= 16 && cs[0] == '_' && occurs_at(&cs, 1, prefix.as_slice()) {
        16
    } else if occurs_at(&cs, 0, prefix.as_slice()) {
        15
    } else {
        return None;
    };
    assert(file_start(name@) == Some(n as int));
    if cs.len() < 3 {
        return None;
    }
    let tail = cs.len() - 3;
    if tail < n + 27 || !occurs_at(&cs, tail, suffix.as_slice()) {
        return None;
    }
    let mut i = n;
    while i < tail
        invariant
            n <= i <= tail <= cs@.len(),
            cs@ == name@,
            file_start(name@) == Some(n as int),
            tail == name@.len() - 3,
            tail >= n + 27,
            name@.subrange(tail as int, name@.len() as int) == initializer_suffix(),
            forall|k: int| n <= k < i ==> cs@[k] != '\n',
        decreases tail - i,
    {
        if cs[i] == '\n' {
            proof {
                reveal(static_init_file);
            }
            assert(cs@.subrange(n as int, tail as int)[i - n] == '\n');
            return None;
        }
        i = i + 1;
    }
    assert(!cs@.subrange(n as int, tail as int).contains('\n'));
    let mut p = tail - 27 + 1;
    while p > n
        invariant
            n <= p <= tail - 27 + 1,
            tail <= cs@.len(),
            tail >= n + 27,
            cs@ == name@,
            marker@ == initializer_marker(),
            file_start(name@) == Some(n as int),
            tail == name@.len() - 3,
            name@.subrange(tail as int, name@.len() as int) == initializer_suffix(),
            !name@.subrange(n as int, tail as int).contains('\n'),
            last_marker(name@, n as int, (tail - 27) as int) == last_marker(name@, n as int, p - 1),
        decreases p,
    {
        p = p - 1;
        if occurs_at(&cs, p, marker.as_slice()) {
            proof {
                reveal(static_init_file);
            }
            return Some(copy_range(&cs, n, p));
        }
    }
    None
}

/// `e` is one of the entries `v` refers to.
pub open spec fn listed(v: Seq<&(String, Function)>, e: (String, Function)) -> bool {
    exists|a: int| 0 <= a < v.len() && *v[a] == e
}

/// The index of the function named `name`.
pub open spec fn index_by_name(fns: Seq<(String, Function)>, name: Seq<char>) -> Option<int> {
    if exists|j: int| 0 <= j < fns.len() && (#[trigger] fns[j]).0@ == name {
        Some(choose|j: int| 0 <= j < fns.len() && (#[trigger] fns[j]).0@ == name)
    } else {
        None
    }
}

/// The index of the one static initializer that embeds `file`, if exactly one does.
pub open spec fn unique_initializer(fns: Seq<(String, Function)>, file: Seq<char>) -> Option<int> {
    if exists|j: int| 0 <= j < fns.len() && static_init_file((#[trigger] fns[j]).0@) == Some(file) && (forall|k: int|
        0 <= k < fns.len() && static_init_file((#[trigger] fns[k]).0@) == Some(file) ==> k == j) {
        Some(choose|j: int| 0 <= j < fns.len() && static_init_file((#[trigger] fns[j]).0@) == Some(file) && (forall|k: int|
            0 <= k < fns.len() && static_init_file((#[trigger] fns[k]).0@) == Some(file) ==> k == j))
    } else {
        None
    }
}

/// The secondary function that the primary name `name` is paired with: the one of
/// the same name, else, for a static initializer, the one secondary static
/// initializer that embeds the same source file.
pub open spec fn match_index(fns: Seq<(String, Function)>, name: Seq<char>) -> Option<int> {
    match index_by_name(fns, name) {
        Some(j) => Some(j),
        None => match static_init_file(name) {
            None => None,
            Some(f) => unique_initializer(fns, f),
        },
    }
}

proof fn lemma_match_index_range(fns: Seq<(String, Function)>, name: Seq<char>)
    ensures
        match_index(fns, name) matches Some(j) ==> 0 <= j < fns.len(),
{
}

proof fn lemma_two_initializers(fns: Seq<(String, Function)>, file: Seq<char>, a: int, b: int)
    requires
        0 <= a < fns.len(),
        0 <= b < fns.len(),
        a != b,
        static_init_file(fns[a].0@) == Some(file),
        static_init_file(fns[b].0@) == Some(file),
    ensures
        unique_initializer(fns, file) is None,
{
    if unique_initializer(fns, file) is Some {
        let c = choose|j: int| 0 <= j < fns.len() && static_init_file((#[trigger] fns[j]).0@) == Some(file) && (forall|k: int|
            0 <= k < fns.len() && static_init_file((#[trigger] fns[k]).0@) == Some(file) ==> k == j);
        assert(static_init_file(fns[a].0@) == Some(file) ==> a == c);
        assert(static_init_file(fns[b].0@) == Some(file) ==> b == c);
    }
}

proof fn lemma_one_initializer(fns: Seq<(String, Function)>, file: Seq<char>, f: int)
    requires
        0 <= f < fns.len(),
        static_init_file(fns[f].0@) == Some(file),
        forall|k: int| 0 <= k < fns.len() && static_init_file((#[trigger] fns[k]).0@) == Some(file) ==> k == f,
    ensures
        unique_initializer(fns, file) == Some(f),
{
}

fn chars_equal(a: &Vec<char>, b: &Vec<char>) -> (r: bool)
    ensures
        r == (a@ == b@),
{
    if a.len() != b.len() {
        return false;
    }
    let mut i: usize = 0;
    while i < a.len()
        invariant
            a@.len() == b@.len(),
            i <= a@.len(),
            forall|k: int| 0 <= k < i ==> a@[k] == b@[k],
        decreases a@.len() - i,
    {
        if a[i] != b[i] {
            return false;
        }
        i = i + 1;
    }
    assert(a@ =~= b@);
    true
}

/// The outcome of one matching step.
pub enum MatchResult<'a> {
    /// The next primary function and its secondary counterpart.
    Matched((&'a Function, &'a Function)),
    /// The next primary function has no counterpart.
    Unmatched,
    /// Every primary function has been handed out.
    Finished,
}

/// Walks the functions of a primary program and pairs each with its counterpart
/// in a secondary program.
pub struct FunctionMatcher<'a> {
    program1: &'a Program,
    program2: &'a Program,
    files2: Vec<Option<Vec<char>>>,
    index2: NameIndex,
    next: usize,
    unmatched1: Vec<usize>,
    matched2: Vec<bool>,
}

impl<'a> FunctionMatcher<'a> {
    pub closed spec fn wf(&self) -> bool {
        &&& self.program2.wf()
        &&& self.index2.indexes(names_of(self.program2.functions@))
        &&& self.files2@.len() == self.program2.functions@.len()
        &&& forall|j: int| 0 <= j < self.files2@.len() ==> match #[trigger] self.files2@[j] {
            None => static_init_file(self.program2.functions@[j].0@) is None,
            Some(v) => static_init_file(self.program2.functions@[j].0@) == Some(v@),
        }
        &&& self.next <= self.program1.functions@.len()
        &&& self.matched2@.len() == self.program2.functions@.len()
        &&& forall|a: int| 0 <= a < self.unmatched1@.len() ==> {
            let k = #[trigger] self.unmatched1@[a];
            k < self.next && self.pairing(k as int) is None
        }
        &&& forall|k: int| 0 <= k < self.next && #[trigger] self.pairing(k) is None ==> exists|a: int|
            0 <= a < self.unmatched1@.len() && self.unmatched1@[a] == k
        &&& forall|j: int| 0 <= j < self.matched2@.len() ==> (#[trigger] self.matched2@[j] <==> self.is_paired(j))
    }

    /// The index of the secondary function that the `k`-th primary function is paired with.
    #[verifier::opaque]
    pub closed spec fn pairing(&self, k: int) -> Option<int> {
        match_index(self.program2.functions@, self.program1.functions@[k].0@)
    }

    /// `e` is a primary function handed out so far that found no counterpart.
    pub open spec fn unmatched_entry(&self, e: (String, Function)) -> bool {
        exists|k: int| 0 <= k < self.position() && #[trigger] self.pairing(k) is None && e == self.primary().functions@[k]
    }

    /// `e` is a secondary function that no primary function handed out so far was paired with.
    pub open spec fn unpaired_entry(&self, e: (String, Function)) -> bool {
        exists|j: int| 0 <= j < self.secondary().functions@.len() && !#[trigger] self.is_paired(j)
            && e == self.secondary().functions@[j]
    }

    /// Some primary function handed out so far was paired with the `j`-th secondary one.
    pub closed spec fn is_paired(&self, j: int) -> bool {
        exists|k: int| 0 <= k < self.next && #[trigger] self.pairing(k) == Some(j)
    }

    /// How many primary functions have been handed out.
    pub closed spec fn position(&self) -> int {
        self.next as int
    }

    pub closed spec fn primary(&self) -> &'a Program {
        self.program1
    }

    pub closed spec fn secondary(&self) -> &'a Program {
        self.program2
    }

    /// A matcher over the functions of `program1`, pairing them with those of
    /// `program2`. The source file of every secondary static initializer is worked
    /// out once, here.
    pub fn new(program1: &'a Program, program2: &'a Program) -> (r: FunctionMatcher<'a>)
        requires
            program2.wf(),
        ensures
            r.wf(),
            r.position() == 0,
            r.primary() == program1,
            r.secondary() == program2,
    {
        let mut files2: Vec<Option<Vec<char>>> = Vec::new();
        let mut matched2: Vec<bool> = Vec::new();
        let mut index2 = NameIndex::new();
        assert(names_of(program2.functions@.take(0)) =~= Seq::<Seq<char>>::empty());
        let mut j: usize = 0;
        while j < program2.functions.len()
            invariant
                j <= program2.functions@.len(),
                index2.indexes(names_of(program2.functions@.take(j as int))),
                files2@.len() == j,
                matched2@.len() == j,
                forall|k: int| 0 <= k < j ==> !#[trigger] matched2@[k],
                forall|k: int| 0 <= k < j ==> match #[trigger] files2@[k] {
                    None => static_init_file(program2.functions@[k].0@) is None,
                    Some(v) => static_init_file(program2.functions@[k].0@) == Some(v@),
                },
            decreases program2.functions@.len() - j,
        {
            files2.push(static_init_file_of(program2.functions[j].0.as_str()));
            matched2.push(false);
            index2.add(program2.functions[j].0.as_str(), j, Ghost(names_of(program2.functions@.take(j as int))));
            assert(names_of(program2.functions@.take(j + 1)) =~= names_of(program2.functions@.take(j as int)).push(
                program2.functions@[j as int].0@,
            ));
            j = j + 1;
        }
        assert(program2.functions@.take(j as int) =~= program2.functions@);
        let ghost m2 = matched2@;
        let r = FunctionMatcher { program1, program2, files2, index2, next: 0, unmatched1: Vec::new(), matched2 };
        assert forall|j: int| 0 <= j < r.matched2@.len() implies (#[trigger] r.matched2@[j] <==> r.is_paired(j)) by {
            assert(!r.matched2@[j]);
        }
        r
    }

    fn find_by_name(&self, name: &String) -> (r: Option<usize>)
        requires
            self.wf(),
        ensures
            match index_by_name(self.program2.functions@, name@) {
                Some(j) => r == Some(j as usize),
                None => r is None,
            },
    {
        let fns = &self.program2.functions;
        let found = self.index2.find(fns, name);
        if let Some(j) = found {
            let ghost c = choose|k: int| 0 <= k < fns@.len() && (#[trigger] fns@[k]).0@ == name@;
            assert(c == j) by {
                if c < j {
                    assert(fns@[c].0@ != fns@[j as int].0@);
                } else if c > j {
                    assert(fns@[j as int].0@ != fns@[c].0@);
                }
            }
        }
        found
    }

    fn find_initializer(&self, file: &Vec<char>) -> (r: Option<usize>)
        requires
            self.wf(),
        ensures
            match unique_initializer(self.program2.functions@, file@) {
                Some(j) => r == Some(j as usize),
                None => r is None,
            },
    {
        let fns = &self.program2.functions;
        let mut found: Option<usize> = None;
        let mut j: usize = 0;
        while j < self.files2.len()
            invariant
                self.wf(),
                *fns == self.program2.functions,
                j <= fns@.len(),
                match found {
                    None => forall|k: int| 0 <= k < j ==> static_init_file((#[trigger] fns@[k]).0@) != Some(file@),
                    Some(f) => f < j && static_init_file(fns@[f as int].0@) == Some(file@) && forall|k: int|
                        0 <= k < j && static_init_file((#[trigger] fns@[k]).0@) == Some(file@) ==> k == f,
                },
            decreases fns@.len() - j,
        {
            let same = match &self.files2[j] {
                Some(v) => chars_equal(v, file),
                None => false,
            };
            assert(same == (static_init_file(fns@[j as int].0@) == Some(file@)));
            if same {
                if found.is_some() {
                    proof {
                        lemma_two_initializers(fns@, file@, found->0 as int, j as int);
                    }
                    return None;
                }
                found = Some(j);
            }
            j = j + 1;
        }
        match found {
            None => None,
            Some(f) => {
                proof {
                    lemma_one_initializer(fns@, file@, f as int);
                }
                Some(f)
            },
        }
    }

    /// The secondary counterpart of the primary name `name`, by name or, for a
    /// static initializer, by the source file its name embeds.
    pub fn match_index_of(&self, name: &String) -> (r: Option<usize>)
        requires
            self.wf(),
        ensures
            match match_index(self.secondary().functions@, name@) {
                Some(j) => r == Some(j as usize),
                None => r is None,
            },
    {
        if let Some(j) = self.find_by_name(name) {
            return Some(j);
        }
        match static_init_file_of(name.as_str()) {
            None => None,
            Some(file) => self.find_initializer(&file),
        }
    }

    /// The secondary function that the primary name `name` is paired with.
    pub fn match_name(&self, name: &String) -> (r: Option<&'a Function>)
        requires
            self.wf(),
        ensures
            match match_index(self.secondary().functions@, name@) {
                Some(j) => r matches Some(f) && *f == self.secondary().functions@[j].1,
                None => r is None,
            },
    {
        proof {
            lemma_match_index_range(self.program2.functions@, name@);
        }
        let n2 = self.program2.functions.len();
        let r = self.match_index_of(name);
        match r {
            Some(j) => {
                Some(&self.program2.functions[j].1)
            },
            None => None,
        }
    }

    /// Hands out the next primary function with its counterpart, if it has one.
    pub fn next_match(&mut self) -> (r: MatchResult<'a>)
        requires
            old(self).wf(),
        ensures
            final(self).wf(),
            final(self).primary() == old(self).primary(),
            final(self).secondary() == old(self).secondary(),
            old(self).position() >= old(self).primary().functions@.len() ==> r is Finished
                && final(self).position() == old(self).position(),
            old(self).position() < old(self).primary().functions@.len() ==> {
                let i = old(self).position();
                &&& final(self).position() == i + 1
                &&& match match_index(old(self).secondary().functions@, old(self).primary().functions@[i].0@) {
                    Some(j) => r matches MatchResult::Matched((f1, f2)) && *f1 == old(self).primary().functions@[i].1
                        && *f2 == old(self).secondary().functions@[j].1,
                    None => r is Unmatched,
                }
            },
    {
        if self.next >= self.program1.functions.len() {
            return MatchResult::Finished;
        }
        let i = self.next;
        let entry = &self.program1.functions[i];
        let n2 = self.program2.functions.len();
        proof {
            lemma_match_index_range(self.program2.functions@, entry.0@);
        }
        let found = self.match_index_of(&entry.0);
        let ghost old_self = *self;
        self.next = self.next + 1;
        match found {
            Some(j) => {
                self.matched2.set(j, true);
                proof {
                    assert(self.pairing(i as int) == Some(j as int)) by {
                        reveal(FunctionMatcher::pairing);
                    }
                    assert(forall|k: int| #[trigger] self.pairing(k) == old_self.pairing(k)) by {
                        reveal(FunctionMatcher::pairing);
                    }
                    assert forall|k: int| 0 <= k < self.next && #[trigger] self.pairing(k) is None implies exists|a: int|
                        0 <= a < self.unmatched1@.len() && self.unmatched1@[a] == k by {
                        assert(old_self.pairing(k) is None);
                        assert(k < old_self.next);
                    }
                    assert forall|q: int| 0 <= q < self.matched2@.len() implies (#[trigger] self.matched2@[q]
                        <==> self.is_paired(q)) by {
                        if q == j {
                            assert(self.pairing(i as int) == Some(q));
                        } else {
                            assert(old_self.matched2@[q] <==> old_self.is_paired(q));
                            if old_self.is_paired(q) {
                                let k = choose|k: int| 0 <= k < old_self.next && #[trigger] old_self.pairing(k) == Some(q);
                                assert(self.pairing(k) == Some(q));
                            }
                            if self.is_paired(q) {
                                let k = choose|k: int| 0 <= k < self.next && #[trigger] self.pairing(k) == Some(q);
                                assert(k != i);
                                assert(old_self.pairing(k) == Some(q));
                            }
                        }
                    }
                }
                MatchResult::Matched((&entry.1, &self.program2.functions[j].1))
            },
            None => {
                self.unmatched1.push(i);
                proof {
                    assert(self.pairing(i as int) is None) by {
                        reveal(FunctionMatcher::pairing);
                    }
                    assert(forall|k: int| #[trigger] self.pairing(k) == old_self.pairing(k)) by {
                        reveal(FunctionMatcher::pairing);
                    }
                    assert forall|a: int| 0 <= a < self.unmatched1@.len() implies {
                        let k = #[trigger] self.unmatched1@[a];
                        k < self.next && self.pairing(k as int) is None
                    } by {
                        if a < old_self.unmatched1@.len() {
                            assert(self.unmatched1@[a] == old_self.unmatched1@[a]);
                        }
                    }
                    assert forall|k: int| 0 <= k < self.next && #[trigger] self.pairing(k) is None implies exists|a: int|
                        0 <= a < self.unmatched1@.len() && self.unmatched1@[a] == k by {
                        if k < i {
                            assert(old_self.pairing(k) is None);
                            assert(k < old_self.next);
                            let a = choose|a: int| 0 <= a < old_self.unmatched1@.len() && old_self.unmatched1@[a] == k;
                            assert(self.unmatched1@[a] == k);
                        } else {
                            assert(self.unmatched1@[self.unmatched1@.len() - 1] == k);
                        }
                    }
                    assert forall|q: int| 0 <= q < self.matched2@.len() implies (#[trigger] self.matched2@[q]
                        <==> self.is_paired(q)) by {
                        assert(old_self.matched2@[q] <==> old_self.is_paired(q));
                        if old_self.is_paired(q) {
                            let k = choose|k: int| 0 <= k < old_self.next && #[trigger] old_self.pairing(k) == Some(q);
                            assert(self.pairing(k) == Some(q));
                        }
                        if self.is_paired(q) {
                            let k = choose|k: int| 0 <= k < self.next && #[trigger] self.pairing(k) == Some(q);
                            assert(k != i);
                            assert(old_self.pairing(k) == Some(q));
                        }
                    }
                }
                MatchResult::Unmatched
            },
        }
    }

    fn unmatched_primary(&self) -> (r: Vec<&'a (String, Function)>)
        requires
            self.wf(),
        ensures
            forall|a: int| 0 <= a < r@.len() ==> #[trigger] self.unmatched_entry(*r@[a]),
            forall|k: int| 0 <= k < self.position() && #[trigger] self.pairing(k) is None ==> listed(
                r@,
                self.primary().functions@[k],
            ),
    {
        let mut first: Vec<&'a (String, Function)> = Vec::new();
        let mut i: usize = 0;
        while i < self.unmatched1.len()
            invariant
                self.wf(),
                i <= self.unmatched1@.len(),
                first@.len() == i,
                forall|a: int| 0 <= a < i ==> *first@[a] == self.program1.functions@[self.unmatched1@[a] as int],
            decreases self.unmatched1@.len() - i,
        {
            let k = self.unmatched1[i];
            assert(k < self.next);
            first.push(&self.program1.functions[k]);
            i = i + 1;
        }
        proof {
            assert forall|a: int| 0 <= a < first@.len() implies #[trigger] self.unmatched_entry(*first@[a]) by {
                let k = self.unmatched1@[a] as int;
                assert(k < self.next && self.pairing(k) is None);
                assert(0 <= k < self.position() && self.pairing(k) is None && *first@[a] == self.primary().functions@[k]);
            }
            assert forall|k: int| 0 <= k < self.position() && #[trigger] self.pairing(k) is None implies listed(
                first@,
                self.primary().functions@[k],
            ) by {
                let a = choose|a: int| 0 <= a < self.unmatched1@.len() && self.unmatched1@[a] == k;
                assert(*first@[a] == self.program1.functions@[k]);
            }
        }
        first
    }

    fn unmatched_secondary(&self) -> (r: Vec<&'a (String, Function)>)
        requires
            self.wf(),
        ensures
            forall|b: int| 0 <= b < r@.len() ==> #[trigger] self.unpaired_entry(*r@[b]),
            forall|j: int| 0 <= j < self.secondary().functions@.len() && !#[trigger] self.is_paired(j) ==> listed(
                r@,
                self.secondary().functions@[j],
            ),
    {
        let mut second: Vec<&'a (String, Function)> = Vec::new();
        let ghost mut origin: Seq<int> = Seq::empty();
        let mut j: usize = 0;
        while j < self.matched2.len()
            invariant
                self.wf(),
                j <= self.matched2@.len(),
                origin.len() == second@.len(),
                forall|b: int| 0 <= b < second@.len() ==> 0 <= #[trigger] origin[b] < j && !self.is_paired(origin[b])
                    && *second@[b] == self.program2.functions@[origin[b]],
                forall|q: int| 0 <= q < j && !#[trigger] self.is_paired(q) ==> exists|b: int|
                    0 <= b < second@.len() && origin[b] == q,
            decreases self.matched2@.len() - j,
        {
            let ghost before = second@;
            let ghost old_origin = origin;
            assert(self.matched2@[j as int] <==> self.is_paired(j as int));
            if !self.matched2[j] {
                second.push(&self.program2.functions[j]);
                proof {
                    origin = origin.push(j as int);
                    assert forall|b: int| 0 <= b < second@.len() implies 0 <= #[trigger] origin[b] < j + 1 && !self.is_paired(
                        origin[b],
                    ) && *second@[b] == self.program2.functions@[origin[b]] by {
                        if b < before.len() {
                            assert(second@[b] == before[b]);
                        }
                    }
                }
            }
            proof {
                assert forall|q: int| 0 <= q < j + 1 && !#[trigger] self.is_paired(q) implies exists|b: int|
                    0 <= b < second@.len() && origin[b] == q by {
                    if q == j {
                        assert(origin[second@.len() - 1] == q);
                    } else {
                        let b = choose|b: int| 0 <= b < before.len() && old_origin[b] == q;
                        assert(origin[b] == old_origin[b]);
                    }
                }
            }
            j = j + 1;
        }
        proof {
            assert forall|b: int| 0 <= b < second@.len() implies #[trigger] self.unpaired_entry(*second@[b]) by {
                let j = origin[b];
                assert(0 <= j < self.matched2@.len());
                assert(0 <= j < self.secondary().functions@.len() && !self.is_paired(j) && *second@[b]
                    == self.secondary().functions@[j]);
            }
            assert forall|q: int| 0 <= q < self.secondary().functions@.len() && !#[trigger] self.is_paired(q) implies listed(
                second@,
                self.secondary().functions@[q],
            ) by {
                let b = choose|b: int| 0 <= b < second@.len() && origin[b] == q;
                assert(*second@[b] == self.program2.functions@[q]);
            }
        }
        second
    }

    /// The primary functions handed out so far that found no counterpart, and the
    /// secondary functions that none of them was paired with.
    pub fn get_unmatched(self) -> (r: (Vec<&'a (String, Function)>, Vec<&'a (String, Function)>))
        requires
            self.wf(),
        ensures
            forall|a: int| 0 <= a < r.0@.len() ==> #[trigger] self.unmatched_entry(*r.0@[a]),
            forall|k: int| 0 <= k < self.position() && #[trigger] self.pairing(k) is None ==> listed(
                r.0@,
                self.primary().functions@[k],
            ),
            forall|b: int| 0 <= b < r.1@.len() ==> #[trigger] self.unpaired_entry(*r.1@[b]),
            forall|j: int| 0 <= j < self.secondary().functions@.len() && !#[trigger] self.is_paired(j) ==> listed(
                r.1@,
                self.secondary().functions@[j],
            ),
    {
        let first = self.unmatched_primary();
        let second = self.unmatched_secondary();
        let r = (first, second);
        assert(r.0@ == first@ && r.1@ == second@);
        r
    }
}

/// When two secondary functions embed the same source file, no primary name that
/// has no secondary function of its own is paired with either of them.
pub proof fn lemma_static_init_uniqueness(fns: Seq<(String, Function)>, a: int, b: int, name: Seq<char>)
    requires
        0 <= a < fns.len(),
        0 <= b < fns.len(),
        a != b,
        static_init_file(fns[a].0@) is Some,
        static_init_file(fns[a].0@) == static_init_file(fns[b].0@),
        index_by_name(fns, name) is None,
    ensures
        match_index(fns, name) != Some(a),
        match_index(fns, name) != Some(b),
{
    let f = static_init_file(fns[a].0@)->0;
    lemma_two_initializers(fns, f, a, b);
    match static_init_file(name) {
        None => {},
        Some(g) => {
            if g != f {
                if unique_initializer(fns, g) is Some {
                    let j = choose|j: int| 0 <= j < fns.len() && static_init_file((#[trigger] fns[j]).0@) == Some(g) && (forall|k: int|
                        0 <= k < fns.len() && static_init_file((#[trigger] fns[k]).0@) == Some(g) ==> k == j);
                    assert(unique_initializer(fns, g) == Some(j));
                    assert(j != a && j != b);
                }
            }
        },
    }
}
} // verus!
