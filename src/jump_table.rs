use vstd::prelude::*;

verus! {

/// Positions of matching brackets, kept in a hash map of the `hashbrown` crate.
#[verifier::external_body]
pub struct JumpTable {
    map: hashbrown::HashMap<usize, usize>,
}

/// The position-to-position entries that a jump table holds.
pub uninterp spec fn jump_entries(t: JumpTable) -> Map<usize, usize>;

impl View for JumpTable {
    type V = Map<usize, usize>;

    open spec fn view(&self) -> Map<usize, usize> {
        jump_entries(*self)
    }
}

impl JumpTable {
    /// Relies on `hashbrown::HashMap::new`: a map with no entries.
    #[verifier::external_body]
    fn empty() -> (r: JumpTable)
        ensures
            jump_entries(r) =~= Map::empty(),
    {
        JumpTable { map: hashbrown::HashMap::new() }
    }

    /// Relies on `hashbrown::HashMap::insert`: afterwards `from` maps to `to`,
    /// every other entry is kept.
    #[verifier::external_body]
    fn set(&mut self, from: usize, to: usize)
        ensures
            jump_entries(*final(self)) == jump_entries(*old(self)).insert(from, to),
    {
        self.map.insert(from, to);
    }

    /// Relies on `hashbrown::HashMap::get`: the value stored under `from`, if any.
    #[verifier::external_body]
    fn lookup(&self, from: usize) -> (r: Option<usize>)
        ensures
            r == (if jump_entries(*self).contains_key(from) {
                Some(jump_entries(*self)[from])
            } else {
                None::<usize>
            }),
    {
        self.map.get(&from).copied()
    }

    /// The position that the bracket at `pos` jumps to, if `pos` holds a bracket.
    pub fn target(&self, pos: usize) -> (r: Option<usize>)
        ensures
            r == (if self@.contains_key(pos) {
                Some(self@[pos])
            } else {
                None::<usize>
            }),
    {
        self.lookup(pos)
    }
}

/// How a symbol changes the bracket nesting depth.
pub open spec fn delta(c: char) -> int {
    if c == '[' {
        1
    } else if c == ']' {
        -1
    } else {
        0
    }
}

pub open spec fn is_bracket(c: char) -> bool {
    c == '[' || c == ']'
}

/// The nesting depth before position `i`: opens minus closes in `code[0..i]`.
pub open spec fn depth(code: Seq<char>, i: int) -> int
    decreases i,
{
    if i <= 0 {
        0
    } else {
        depth(code, i - 1) + delta(code[i - 1])
    }
}

/// Every close has an earlier open to match and every open is closed.
pub open spec fn balanced(code: Seq<char>) -> bool {
    &&& depth(code, code.len() as int) == 0
    &&& forall|i: int| 0 <= i <= code.len() ==> #[trigger] depth(code, i) >= 0
}

/// The open bracket at `p` and the close bracket at `q` match: between them
/// the nesting never drops below its level just inside `p`, and returns to it.
pub open spec fn matched(code: Seq<char>, p: int, q: int) -> bool {
    &&& 0 <= p < q < code.len()
    &&& code[p] == '['
    &&& code[q] == ']'
    &&& depth(code, q) == depth(code, p + 1)
    &&& forall|k: int| p + 1 <= k <= q ==> #[trigger] depth(code, k) >= depth(code, p + 1)
}

/// `m` holds an entry for exactly the bracket positions of `code`, each
/// mapped to its matching counterpart.
pub open spec fn pairs_brackets(code: Seq<char>, m: Map<usize, usize>) -> bool {
    &&& forall|i: int| 0 <= i < code.len() ==> (m.contains_key(i as usize) <==> #[trigger] is_bracket(code[i]))
    &&& forall|k: usize|
        #[trigger] m.contains_key(k) ==> {
            &&& k < code.len()
            &&& code[k as int] == '[' ==> matched(code, k as int, m[k] as int)
            &&& code[k as int] == ']' ==> matched(code, m[k] as int, k as int)
        }
}

/// The depth inside a slice is the depth of the whole, measured from the
/// slice's start.
pub proof fn lemma_depth_of_slice(code: Seq<char>, a: int, b: int, k: int)
    requires
        0 <= a <= b <= code.len(),
        0 <= k <= b - a,
    ensures
        depth(code.subrange(a, b), k) == depth(code, a + k) - depth(code, a),
    decreases k,
{
    if k > 0 {
        lemma_depth_of_slice(code, a, b, k - 1);
    }
}

/// Each pair of a jump table that pairs the brackets of `code` runs from an
/// open bracket to a later close bracket, and the instructions strictly
/// between the two are themselves a balanced bracket expression.
pub proof fn lemma_pair_encloses_balanced(code: Seq<char>, m: Map<usize, usize>, p: usize)
    requires
        pairs_brackets(code, m),
        m.contains_key(p),
        code[p as int] == '[',
    ensures
        p < m[p],
        code[m[p] as int] == ']',
        m.contains_key(m[p]) && m[m[p]] == p,
        balanced(code.subrange(p + 1, m[p] as int)),
{
    let q = m[p];
    let inner = code.subrange(p + 1, q as int);
    assert(matched(code, p as int, q as int));
    assert(is_bracket(code[q as int]));
    assert(m.contains_key(q));
    assert(matched(code, m[q] as int, q as int));
    lemma_matched_unique(code, p as int, m[q] as int, q as int);
    assert forall|i: int| 0 <= i <= inner.len() implies #[trigger] depth(inner, i) >= 0 by {
        lemma_depth_of_slice(code, p + 1, q as int, i);
        assert(depth(code, p + 1 + i) >= depth(code, p + 1));
    }
    lemma_depth_of_slice(code, p + 1, q as int, inner.len() as int);
}

/// A close bracket matches at most one open bracket.
pub proof fn lemma_matched_unique(code: Seq<char>, a: int, b: int, q: int)
    requires
        matched(code, a, q),
        matched(code, b, q),
    ensures
        a == b,
{
    if a < b {
        // the open bracket at b lies inside the pair (a, q)
        assert(depth(code, b) >= depth(code, a + 1));
        assert(depth(code, b + 1) == depth(code, b) + 1);
        assert(depth(code, q) == depth(code, b + 1));
    } else if b < a {
        assert(depth(code, a) >= depth(code, b + 1));
        assert(depth(code, a + 1) == depth(code, a) + 1);
        assert(depth(code, q) == depth(code, a + 1));
    }
}

/// Why the brackets of an instruction sequence cannot be paired.
#[derive(Debug, Clone, Copy, PartialEq, Eq, Structural)]
pub enum BracketError {
    /// The close bracket at this position has no open bracket before it.
    UnmatchedClose(usize),
    /// Some open bracket is never closed.
    UnmatchedOpen,
}

/// `e` is the right account of why `code` does not balance: the first close
/// bracket that drops the depth below zero, or, when there is none, an open
/// bracket left unclosed at the end.
pub open spec fn describes(code: Seq<char>, e: BracketError) -> bool {
    match e {
        BracketError::UnmatchedClose(q) => {
            &&& q < code.len()
            &&& code[q as int] == ']'
            &&& depth(code, q + 1) < 0
            &&& forall|k: int| 0 <= k <= q ==> #[trigger] depth(code, k) >= 0
        },
        BracketError::UnmatchedOpen => {
            &&& forall|k: int| 0 <= k <= code.len() ==> #[trigger] depth(code, k) >= 0
            &&& depth(code, code.len() as int) > 0
        },
    }
}

/// Pairs each bracket of `code` with its match, walking the sequence once with
/// a stack of the open brackets still waiting for a close.
pub fn build_brace_map(code: &Vec<char>) -> (r: Result<JumpTable, BracketError>)
    ensures
        r is Ok <==> balanced(code@),
        match r {
            Ok(t) => pairs_brackets(code@, t@),
            Err(e) => describes(code@, e),
        },
{
    let n = code.len();
    let mut stack: Vec<usize> = Vec::new();
    let mut table = JumpTable::empty();
    let mut i: usize = 0;
    while i < n
        invariant
            n == code.len(),
            i <= n,
            stack@.len() == depth(code@, i as int),
            forall|t: int| 0 <= t <= i ==> #[trigger] depth(code@, t) >= 0,
            forall|a: int, b: int| 0 <= a < b < stack@.len() ==> stack@[a] < stack@[b],
            forall|a: int|
                0 <= a < stack@.len() ==> {
                    &&& #[trigger] stack@[a] < i
                    &&& code@[stack@[a] as int] == '['
                    &&& depth(code@, stack@[a] as int) == a
                    &&& forall|t: int| stack@[a] < t <= i ==> #[trigger] depth(code@, t) > a
                },
            forall|j: int|
                0 <= j < i && #[trigger] is_bracket(code@[j]) && !stack@.contains(j as usize)
                    ==> table@.contains_key(j as usize),
            forall|k: usize|
                #[trigger] table@.contains_key(k) ==> {
                    &&& k < i
                    &&& is_bracket(code@[k as int])
                    &&& !stack@.contains(k)
                    &&& code@[k as int] == '[' ==> matched(code@, k as int, table@[k] as int)
                    &&& code@[k as int] == ']' ==> matched(code@, table@[k] as int, k as int)
                },
        decreases n - i,
    {
        let c = code[i];
        proof {
            assert(depth(code@, i + 1) == depth(code@, i as int) + delta(code@[i as int]));
        }
        if c == '[' {
            let ghost before = stack@;
            stack.push(i);
            proof {
                assert forall|j: int|
                    0 <= j < i + 1 && #[trigger] is_bracket(code@[j]) && !stack@.contains(
                        j as usize,
                    ) implies table@.contains_key(j as usize) by {
                    if j == i {
                        assert(stack@[before.len() as int] == i);
                    } else if before.contains(j as usize) {
                        let a = choose|a: int| 0 <= a < before.len() && before[a] == j as usize;
                        assert(stack@[a] == j as usize);
                    }
                }
                assert forall|k: usize| #[trigger] table@.contains_key(k) implies !stack@.contains(
                    k,
                ) by {
                    if stack@.contains(k) {
                        let a = choose|a: int| 0 <= a < stack@.len() && stack@[a] == k;
                        if a < before.len() {
                            assert(before[a] == k);
                        }
                    }
                }
            }
        } else if c == ']' {
            if stack.len() == 0 {
                return Err(BracketError::UnmatchedClose(i));
            }
            let ghost before = stack@;
            let ghost old_table = table@;
            let p = stack.pop().unwrap();
            proof {
                assert(before == stack@.push(p));
                assert(before[before.len() - 1] == p);
                assert(matched(code@, p as int, i as int));
            }
            table.set(p, i);
            table.set(i, p);
            proof {
                assert forall|j: int|
                    0 <= j < i + 1 && #[trigger] is_bracket(code@[j]) && !stack@.contains(
                        j as usize,
                    ) implies table@.contains_key(j as usize) by {
                    if j != i && j != p {
                        if before.contains(j as usize) {
                            let a = choose|a: int| 0 <= a < before.len() && before[a] == j as usize;
                            assert(a < stack@.len());
                            assert(stack@[a] == j as usize);
                        }
                    }
                }
                assert forall|k: usize| #[trigger] table@.contains_key(k) implies {
                    &&& k < i + 1
                    &&& is_bracket(code@[k as int])
                    &&& !stack@.contains(k)
                    &&& code@[k as int] == '[' ==> matched(code@, k as int, table@[k] as int)
                    &&& code@[k as int] == ']' ==> matched(code@, table@[k] as int, k as int)
                } by {
                    if k != i && k != p {
                        assert(old_table.contains_key(k));
                        if stack@.contains(k) {
                            let a = choose|a: int| 0 <= a < stack@.len() && stack@[a] == k;
                            assert(before[a] == k);
                        }
                    } else if k == p {
                        if stack@.contains(k) {
                            let a = choose|a: int| 0 <= a < stack@.len() && stack@[a] == k;
                            assert(before[a] < before[before.len() - 1]);
                        }
                    }
                }
            }
        }
        i = i + 1;
    }
    if stack.len() > 0 {
        return Err(BracketError::UnmatchedOpen);
    }
    proof {
        assert forall|j: int| 0 <= j < code.len() implies (table@.contains_key(j as usize)
            <==> #[trigger] is_bracket(code@[j])) by {
            if is_bracket(code@[j]) {
                assert(!stack@.contains(j as usize));
            }
        }
    }
    Ok(table)
}

} // verus!
