//! Environment mapping sets.
//!
//! One [`AtomEnvironmentMap`] owns the atoms assigned to one named profile.
//! It is constructed empty from a base directory and a profile name, loaded
//! from the lines of its backing store (the first whitespace-delimited token
//! of every non-blank line is parsed as an atom and inserted, with set
//! semantics), and queried for membership to keep each atom in at most one
//! profile.

use vstd::prelude::*;

use crate::atom::Atom;
use crate::atom::AtomView;
use crate::atom::ParseError;
use crate::atom::ParseErrorView;
use crate::atom::spec_parse;

verus! {

/// The Unicode white-space characters (property `White_Space`), as they
/// delimit tokens of a backing-store line.
pub open spec fn is_space_char(c: char) -> bool {
    let u = c as u32;
    u == 0x09 || u == 0x0A || u == 0x0B || u == 0x0C || u == 0x0D || u == 0x20 || u == 0x85
        || u == 0xA0 || u == 0x1680 || (0x2000 <= u && u <= 0x200A) || u == 0x2028 || u == 0x2029
        || u == 0x202F || u == 0x205F || u == 0x3000
}

/// The first position at or after `i` that does not hold whitespace.
pub open spec fn token_start(line: Seq<char>, i: int) -> int
    decreases line.len() - i,
{
    if 0 <= i < line.len() && is_space_char(line[i]) {
        token_start(line, i + 1)
    } else {
        i
    }
}

/// The first position at or after `i` that holds whitespace, or the end.
pub open spec fn token_end(line: Seq<char>, i: int) -> int
    decreases line.len() - i,
{
    if 0 <= i < line.len() && !is_space_char(line[i]) {
        token_end(line, i + 1)
    } else {
        i
    }
}

/// The first whitespace-delimited token of a line, if the line is not blank.
/// Trailing tokens carry no meaning.
pub open spec fn first_token(line: Seq<char>) -> Option<Seq<char>> {
    let b = token_start(line, 0);
    if b == line.len() {
        None
    } else {
        Some(line.subrange(b, token_end(line, b)))
    }
}

/// A line is acceptable when it is blank or its first token parses.
pub open spec fn line_ok(line: Seq<char>) -> bool {
    match first_token(line) {
        Some(t) => spec_parse(t) is Ok,
        None => true,
    }
}

/// The atom a line contributes, if any.
pub open spec fn line_atom(line: Seq<char>) -> Option<AtomView> {
    match first_token(line) {
        Some(t) => match spec_parse(t) {
            Ok(a) => Some(a),
            Err(_) => None,
        },
        None => None,
    }
}

/// The atoms contributed by the first `n` lines.
pub open spec fn prefix_atoms(lines: Seq<Seq<char>>, n: int) -> Set<AtomView> {
    Set::new(
        |a: AtomView|
            exists|k: int| 0 <= k < n && #[trigger] line_atom(lines[k]) == Some(a),
    )
}

/// A whitespace run ends exactly where a non-whitespace character (or the
/// end of the line) stands.
proof fn lemma_token_start_is(line: Seq<char>, i: int, n: int)
    requires
        0 <= i <= n <= line.len(),
        forall|k: int| i <= k < n ==> is_space_char(#[trigger] line[k]),
        n == line.len() || !is_space_char(line[n]),
    ensures
        token_start(line, i) == n,
    decreases n - i,
{
    if i < n {
        lemma_token_start_is(line, i + 1, n);
    }
}

/// A token ends exactly where a whitespace character (or the end of the
/// line) stands.
proof fn lemma_token_end_is(line: Seq<char>, i: int, n: int)
    requires
        0 <= i <= n <= line.len(),
        forall|k: int| i <= k < n ==> !is_space_char(#[trigger] line[k]),
        n == line.len() || is_space_char(line[n]),
    ensures
        token_end(line, i) == n,
    decreases n - i,
{
    if i < n {
        lemma_token_end_is(line, i + 1, n);
    }
}

/// Whether a character is Unicode white space.
fn is_space_exec(c: char) -> (r: bool)
    ensures
        r == is_space_char(c),
{
    let u = c as u32;
    u == 0x09 || u == 0x0A || u == 0x0B || u == 0x0C || u == 0x0D || u == 0x20 || u == 0x85
        || u == 0xA0 || u == 0x1680 || (0x2000 <= u && u <= 0x200A) || u == 0x2028 || u == 0x2029
        || u == 0x202F || u == 0x205F || u == 0x3000
}

/// The end of the leading whitespace run of a line.
fn space_run_end(line: &str) -> (b: usize)
    ensures
        b == token_start(line@, 0),
        b <= line@.len(),
{
    let len = line.unicode_len();
    let mut b: usize = 0;
    while b < len
        invariant
            b <= len,
            len == line@.len(),
            forall|k: int| 0 <= k < b ==> is_space_char(#[trigger] line@[k]),
        decreases len - b,
    {
        if !is_space_exec(line.get_char(b)) {
            proof {
                lemma_token_start_is(line@, 0, b as int);
            }
            return b;
        }
        b = b + 1;
    }
    proof {
        lemma_token_start_is(line@, 0, len as int);
    }
    b
}

/// The end of the token starting at `b`.
fn token_end_exec(line: &str, b: usize) -> (e: usize)
    requires
        b <= line@.len(),
    ensures
        e == token_end(line@, b as int),
        b <= e <= line@.len(),
{
    let len = line.unicode_len();
    let mut e: usize = b;
    while e < len
        invariant
            b <= e <= len,
            len == line@.len(),
            forall|k: int| b <= k < e ==> !is_space_char(#[trigger] line@[k]),
        decreases len - e,
    {
        if is_space_exec(line.get_char(e)) {
            proof {
                lemma_token_end_is(line@, b as int, e as int);
            }
            return e;
        }
        e = e + 1;
    }
    proof {
        lemma_token_end_is(line@, b as int, len as int);
    }
    e
}

/// The first whitespace-delimited token of a line, per [`first_token`].
fn first_token_exec<'a>(line: &'a str) -> (r: Option<&'a str>)
    ensures
        (match first_token(line@) {
            Some(t) => r matches Some(x) && x@ == t,
            None => r is None,
        }),
{
    let len = line.unicode_len();
    let b = space_run_end(line);
    if b == len {
        None
    } else {
        let e = token_end_exec(line, b);
        Some(line.substring_char(b, e))
    }
}

/// The atoms assigned to one named profile, backed by one store file.
#[derive(Debug)]
pub struct AtomEnvironmentMap {
    path: String,
    name: String,
    atoms: Vec<Atom>,
}

impl AtomEnvironmentMap {
    /// The backing store's location.
    pub closed spec fn spec_path(&self) -> Seq<char> {
        self.path@
    }

    /// The display identity: the store path.
    pub closed spec fn spec_name(&self) -> Seq<char> {
        self.name@
    }

    /// The atoms held, in insertion order.
    pub closed spec fn atom_seq(&self) -> Seq<AtomView> {
        self.atoms@.map_values(|a: Atom| a@)
    }

    /// The atoms held, as a set.
    pub closed spec fn atom_set(&self) -> Set<AtomView> {
        self.atom_seq().to_set()
    }

    /// Well-formed: the held atoms are pairwise distinct (set semantics).
    pub closed spec fn wf(&self) -> bool {
        forall|i: int, k: int|
            0 <= i < k < self.atoms@.len() ==> #[trigger] self.atoms@[i]@ != #[trigger] self.atoms@[k]@
    }

    /// A well-formed mapping holds each atom once: the length of the atoms
    /// vector is the size of the atom set, so counting the held atoms counts
    /// the distinct atoms of the profile.
    pub proof fn lemma_atom_count(&self)
        requires
            self.wf(),
        ensures
            self.atom_seq().len() == self.atom_set().len(),
    {
        assert forall|i: int, j: int|
            0 <= i < j < self.atom_seq().len() implies self.atom_seq()[i]
            != self.atom_seq()[j] by {
            assert(self.atom_seq()[i] == self.atoms@[i]@);
            assert(self.atom_seq()[j] == self.atoms@[j]@);
        }
        self.atom_seq().unique_seq_to_set();
    }

    /// Builds an empty mapping for the profile `env_name`, backed by the
    /// store `base_dir/env_name`.  The filesystem is not touched.
    pub fn new(base_dir: &str, env_name: &str) -> (m: AtomEnvironmentMap)
        ensures
            m.spec_path() == base_dir@ + seq!['/'] + env_name@,
            m.spec_name() == m.spec_path(),
            m.atom_seq() == Seq::<AtomView>::empty(),
            m.atom_set() == Set::<AtomView>::empty(),
            m.wf(),
    {
        let mut path = String::new();
        path.append(base_dir);
        proof {
            reveal_strlit("/");
        }
        path.append("/");
        path.append(env_name);
        let name = path.clone();
        let m = AtomEnvironmentMap { path, name, atoms: Vec::new() };
        proof {
            assert(m.spec_path() =~= base_dir@ + seq!['/'] + env_name@);
            assert(m.atom_seq() =~= Seq::<AtomView>::empty());
            assert(m.atom_set() =~= Set::<AtomView>::empty());
        }
        m
    }

    /// The profile's store path, used as its display identity.
    pub fn name(&self) -> (r: &str)
        ensures
            r@ == self.spec_name(),
    {
        self.name.as_str()
    }

    /// Read-only view of the held atoms.
    pub fn atoms(&self) -> (r: &Vec<Atom>)
        ensures
            r@.len() == self.atom_seq().len(),
            forall|i: int| 0 <= i < r@.len() ==> #[trigger] r@[i]@ == self.atom_seq()[i],
    {
        &self.atoms
    }

    /// Membership by structural atom equality.
    pub fn contains(&self, atom: &Atom) -> (r: bool)
        ensures
            r == self.atom_set().contains(atom@),
    {
        let n = self.atoms.len();
        let mut i: usize = 0;
        while i < n
            invariant
                i <= n,
                n == self.atoms@.len(),
                forall|k: int| 0 <= k < i ==> #[trigger] self.atoms@[k]@ != atom@,
            decreases n - i,
        {
            if self.atoms[i] == *atom {
                proof {
                    assert(self.atom_seq()[i as int] == atom@);
                    assert(self.atom_seq().contains(atom@));
                }
                return true;
            }
            i = i + 1;
        }
        proof {
            if self.atom_set().contains(atom@) {
                let k = choose|k: int| 0 <= k < self.atom_seq().len() && self.atom_seq()[k] == atom@;
                assert(self.atoms@[k]@ == atom@);
            }
        }
        false
    }

    /// Inserts an atom; a duplicate insertion is a no-op.  Returns whether
    /// the atom was new.
    pub fn insert(&mut self, atom: Atom) -> (r: bool)
        requires
            old(self).wf(),
        ensures
            final(self).wf(),
            final(self).atom_set() == old(self).atom_set().insert(atom@),
            final(self).spec_path() == old(self).spec_path(),
            final(self).spec_name() == old(self).spec_name(),
            r == !old(self).atom_set().contains(atom@),
    {
        if self.contains(&atom) {
            proof {
                assert(self.atom_set().insert(atom@) =~= self.atom_set());
            }
            false
        } else {
            let ghost old_atoms = self.atoms@;
            proof {
                assert forall|q: int| 0 <= q < old_atoms.len() implies old_atoms[q]@ != atom@ by {
                    if old_atoms[q]@ == atom@ {
                        assert(self.atom_seq()[q] == atom@);
                        assert(self.atom_seq().contains(atom@));
                    }
                }
            }
            self.atoms.push(atom);
            proof {
                assert(self.atoms@ == old_atoms.push(atom));
                assert(self.atom_seq() =~= old(self).atom_seq().push(atom@));
                assert forall|i: int, k: int|
                    0 <= i < k < self.atoms@.len() implies self.atoms@[i]@ != self.atoms@[k]@ by {
                    assert(self.atoms@[i]@ == old_atoms[i]@);
                    if k < old_atoms.len() {
                        assert(old_atoms[i]@ != old_atoms[k]@);
                    } else {
                        assert(self.atoms@[k]@ == atom@);
                    }
                }
                assert forall|x: AtomView| self.atom_set().contains(x) implies old(
                    self,
                ).atom_set().insert(atom@).contains(x) by {
                    let k = choose|k: int|
                        0 <= k < self.atom_seq().len() && self.atom_seq()[k] == x;
                    if k < old(self).atom_seq().len() {
                        assert(old(self).atom_seq()[k] == x);
                        assert(old(self).atom_seq().contains(x));
                    }
                }
                assert forall|x: AtomView| old(self).atom_set().insert(atom@).contains(
                    x,
                ) implies self.atom_set().contains(x) by {
                    if x == atom@ {
                        assert(self.atom_seq()[old(self).atom_seq().len() as int] == x);
                        assert(self.atom_seq().contains(x));
                    } else {
                        let k = choose|k: int|
                            0 <= k < old(self).atom_seq().len() && old(self).atom_seq()[k] == x;
                        assert(self.atom_seq()[k] == x);
                        assert(self.atom_seq().contains(x));
                    }
                }
                assert(self.atom_set() =~= old(self).atom_set().insert(atom@));
            }
            true
        }
    }

    /// Loads atoms from the lines of the backing store: for every non-blank
    /// line, the first whitespace-delimited token is parsed and the atom
    /// inserted.  The first token that fails to parse aborts the load with
    /// its error; the atoms of the preceding lines are kept.  Loading never
    /// removes an atom: the set only grows.
    pub fn load_lines(&mut self, lines: &Vec<String>) -> (r: Result<(), ParseError>)
        requires
            old(self).wf(),
        ensures
            final(self).wf(),
            final(self).spec_path() == old(self).spec_path(),
            final(self).spec_name() == old(self).spec_name(),
            old(self).atom_set().subset_of(final(self).atom_set()),
            (match r {
                Ok(_) => (forall|k: int|
                    0 <= k < lines@.len() ==> line_ok(#[trigger] lines.deep_view()[k]))
                    && final(self).atom_set() == old(self).atom_set().union(
                    prefix_atoms(lines.deep_view(), lines@.len() as int),
                ),
                Err(e) => exists|k: int|
                    #![trigger line_ok(lines.deep_view()[k])]
                    0 <= k < lines@.len() && !line_ok(lines.deep_view()[k]) && (forall|t: int|
                        0 <= t < k ==> line_ok(#[trigger] lines.deep_view()[t])) && (
                    first_token(lines.deep_view()[k]) matches Some(tok) && spec_parse(tok)
                        == Err::<AtomView, ParseErrorView>(e@)) && final(self).atom_set() == old(
                        self,
                    ).atom_set().union(prefix_atoms(lines.deep_view(), k)),
            }),
    {
        let ghost ldv = lines.deep_view();
        let n = lines.len();
        let mut i: usize = 0;
        proof {
            assert(self.atom_set() =~= old(self).atom_set().union(prefix_atoms(ldv, 0)));
        }
        while i < n
            invariant
                i <= n,
                n == lines@.len(),
                ldv == lines.deep_view(),
                self.wf(),
                self.spec_path() == old(self).spec_path(),
                self.spec_name() == old(self).spec_name(),
                forall|t: int| 0 <= t < i ==> line_ok(#[trigger] ldv[t]),
                self.atom_set() == old(self).atom_set().union(prefix_atoms(ldv, i as int)),
            decreases n - i,
        {
            proof {
                assert(ldv[i as int] == lines@[i as int]@);
            }
            match first_token_exec(lines[i].as_str()) {
                None => {
                    proof {
                        assert(line_atom(ldv[i as int]) is None);
                        assert forall|x: AtomView| prefix_atoms(ldv, i + 1).contains(x) implies
                            prefix_atoms(ldv, i as int).contains(x) by {
                            let k = choose|k: int|
                                0 <= k < i + 1 && #[trigger] line_atom(ldv[k]) == Some(x);
                            assert(k < i);
                        }
                        assert(prefix_atoms(ldv, i + 1) =~= prefix_atoms(ldv, i as int));
                    }
                },
                Some(tok) => {
                    match Atom::try_from(tok) {
                        Ok(a) => {
                            proof {
                                assert(line_atom(ldv[i as int]) == Some(a@));
                                assert(line_ok(ldv[i as int]));
                            }
                            let ghost before = self.atom_set();
                            self.insert(a);
                            proof {
                                assert forall|x: AtomView| prefix_atoms(ldv, i + 1).contains(
                                    x,
                                ) implies prefix_atoms(ldv, i as int).insert(a@).contains(x) by {
                                    let k = choose|k: int|
                                        0 <= k < i + 1 && #[trigger] line_atom(ldv[k]) == Some(x);
                                    if k == i {
                                        assert(x == a@);
                                    }
                                }
                                assert forall|x: AtomView| prefix_atoms(ldv, i as int).insert(
                                    a@,
                                ).contains(x) implies prefix_atoms(ldv, i + 1).contains(x) by {
                                    if x == a@ {
                                        assert(line_atom(ldv[i as int]) == Some(x));
                                    } else {
                                        let k = choose|k: int|
                                            0 <= k < i && #[trigger] line_atom(ldv[k]) == Some(x);
                                        assert(line_atom(ldv[k]) == Some(x));
                                    }
                                }
                                assert(prefix_atoms(ldv, i + 1) =~= prefix_atoms(
                                    ldv,
                                    i as int,
                                ).insert(a@));
                                assert(self.atom_set() =~= old(self).atom_set().union(
                                    prefix_atoms(ldv, i + 1),
                                ));
                            }
                        },
                        Err(e) => {
                            proof {
                                assert(!line_ok(ldv[i as int]));
                            }
                            return Err(e);
                        },
                    }
                },
            }
            i = i + 1;
        }
        Ok(())
    }
}

/// The first loaded mapping that already holds `atom`, if any: the
/// cross-mapping uniqueness check.  `None` means no mapping holds it and an
/// insertion elsewhere keeps every atom in at most one profile.
pub fn find_conflict(maps: &Vec<AtomEnvironmentMap>, atom: &Atom) -> (r: Option<usize>)
    ensures
        (match r {
            Some(i) => 0 <= i < maps@.len() && maps@[i as int].atom_set().contains(atom@) && (
            forall|k: int| 0 <= k < i ==> !(#[trigger] maps@[k].atom_set().contains(atom@))),
            None => forall|k: int|
                0 <= k < maps@.len() ==> !(#[trigger] maps@[k].atom_set().contains(atom@)),
        }),
{
    let n = maps.len();
    let mut i: usize = 0;
    while i < n
        invariant
            i <= n,
            n == maps@.len(),
            forall|k: int| 0 <= k < i ==> !(#[trigger] maps@[k].atom_set().contains(atom@)),
        decreases n - i,
    {
        if maps[i].contains(atom) {
            return Some(i);
        }
        i = i + 1;
    }
    None
}

} // verus!
