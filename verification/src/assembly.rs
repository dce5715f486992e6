//! A cache of parsed assemblies that generates MonoBehaviour type trees for a
//! fixed Unity version.
//!
//! Assemblies are loaded lazily: every operation is a step that either asks
//! for one more assembly file (which the caller reads and hands back with
//! [`AssemblyTypeTreeGenerator::add_assembly`]) or finishes with its answer.
//! An assembly file is asked for only while it is unknown, so each file is
//! read at most once.
use vstd::prelude::*;
use crate::field::{models, Field};
use crate::generator::{Generator, read_spec, law_forwarded_type_reads_its_defining_assembly, read_needs, derives_mono, derives_mono_needs, chain_bound, chain_limit};
use crate::metadata::{Assembly, first_top_level, first_forwarder, first_assembly, names, records, lemma_records_none, lemma_records_trans, valid_id, tdef};
use crate::text::{joined, text_eq, owned};
use crate::typetree::{TypeTreeNode, NodeModel, assemble, assembled, base_field, fits};
use crate::version::UnityVersion;

verus! {

/// What a step of a lazily loading operation asks for.
#[derive(Debug)]
pub enum Step<T> {
    /// Read the assembly file with this name and hand it back.
    Load(String),
    /// The operation is finished.
    Done(T),
}

/// Why a type tree could not be built.
#[derive(Debug, Clone, Copy, PartialEq, Eq, Structural)]
pub enum GenerateError {
    /// A byte size in the tree does not fit in an `i32`.
    TooLarge,
}

/// Whether `f` is one of the names in `l`.
pub open spec fn listed(l: Seq<String>, f: Seq<char>) -> bool {
    exists|i: int| 0 <= i < l.len() && (#[trigger] l[i])@ == f
}

/// `k`, or `n` when `k` is larger.
pub open spec fn capped(k: usize, n: nat) -> nat {
    if k < n {
        k as nat
    } else {
        n
    }
}

/// No name occurs twice in `l`.
pub open spec fn distinct_names(l: Seq<String>) -> bool {
    forall|i: int, k: int| 0 <= i < k < l.len() ==> (#[trigger] l[i])@ != (#[trigger] l[k])@
}

/// Index of the first name of `l` at or after `i` equal to `f`.
pub open spec fn position(l: Seq<String>, f: Seq<char>, i: int) -> Option<int>
    decreases l.len() - i,
{
    if i < 0 || i >= l.len() {
        None
    } else if l[i]@ == f {
        Some(i)
    } else {
        position(l, f, i + 1)
    }
}

/// The finished tree of `ns.class_name` defined in assembly `a`: `None` when
/// the assembly does not define it, `TooLarge` when a byte size in it does
/// not fit in an `i32`.
pub open spec fn generated(u: Seq<Assembly>, v: UnityVersion, a: usize, ns: Seq<char>, class_name: Seq<char>) -> Result<Option<NodeModel>, GenerateError> {
    match read_spec(u, v, a, ns, class_name) {
        None => Ok(None),
        Some(c) => if fits(base_field(c, class_name)) {
            Ok(Some(assembled(c, class_name)))
        } else {
            Err(GenerateError::TooLarge)
        },
    }
}

/// The full names of the top-level types among the first `n` types of
/// assembly `j` that derive from `UnityEngine.MonoBehaviour`, in order.
pub open spec fn mono_types(u: Seq<Assembly>, j: int, n: nat) -> Seq<Seq<char>>
    decreases n,
{
    if n == 0 {
        Seq::empty()
    } else {
        let p = mono_types(u, j, (n - 1) as nat);
        let t = (n - 1) as int;
        let d = u[j].types@[t];
        if !d.nested && derives_mono(u, (j as usize, t as usize), chain_bound(u)) {
            p.push(d.full_name@)
        } else {
            p
        }
    }
}

/// For the first `n` loaded assemblies that define a MonoBehaviour, the
/// assembly's file name and the full names of its top-level MonoBehaviours.
pub open spec fn mono_defs(u: Seq<Assembly>, files: Seq<String>, n: nat) -> Seq<(Seq<char>, Seq<Seq<char>>)>
    decreases n,
{
    if n == 0 {
        Seq::empty()
    } else {
        let p = mono_defs(u, files, (n - 1) as nat);
        let j = (n - 1) as int;
        let m = mono_types(u, j, u[j].types@.len());
        if m.len() > 0 {
            p.push((files[j]@, m))
        } else {
            p
        }
    }
}

/// The names of the assemblies that listing the MonoBehaviours among the
/// first `n` types of assembly `j` resolves a base type in and finds not loaded.
pub open spec fn mono_types_needs(u: Seq<Assembly>, j: int, n: nat) -> Set<Seq<char>>
    decreases n,
{
    if n == 0 {
        Set::empty()
    } else {
        let t = (n - 1) as int;
        mono_types_needs(u, j, (n - 1) as nat).union(
            if u[j].types@[t].nested {
                Set::empty()
            } else {
                derives_mono_needs(u, (j as usize, t as usize), chain_bound(u))
            },
        )
    }
}

/// The same for the first `n` loaded assemblies.
pub open spec fn mono_defs_needs(u: Seq<Assembly>, n: nat) -> Set<Seq<char>>
    decreases n,
{
    if n == 0 {
        Set::empty()
    } else {
        let j = (n - 1) as int;
        mono_defs_needs(u, (n - 1) as nat).union(mono_types_needs(u, j, u[j].types@.len()))
    }
}

/// The file that holds the assembly named `n`.
pub open spec fn file_of(n: Seq<char>) -> Seq<char> {
    n + ".dll"@
}

/// A parsed-assembly cache that generates MonoBehaviour type trees for a
/// fixed Unity version.
pub struct AssemblyTypeTreeGenerator {
    /// Parsed assemblies, in load order.
    universe: Vec<Assembly>,
    /// The file name of each parsed assembly.
    files: Vec<String>,
    /// Files that were read but do not parse as assemblies.
    unparsable: Vec<String>,
    unity_version: UnityVersion,
}

impl AssemblyTypeTreeGenerator {
    /// Each parsed assembly has its file name, and no file is recorded twice.
    pub closed spec fn wf(&self) -> bool {
        &&& self.files@.len() == self.universe@.len()
        &&& distinct_names(self.files@)
    }

    /// The parsed assemblies, in load order.
    pub closed spec fn assemblies(&self) -> Seq<Assembly> {
        self.universe@
    }

    /// The file names of the parsed assemblies, in load order.
    pub closed spec fn parsed_files(&self) -> Seq<String> {
        self.files@
    }

    /// The files that were read and do not parse.
    pub closed spec fn unparsable_files(&self) -> Seq<String> {
        self.unparsable@
    }

    pub closed spec fn version(&self) -> UnityVersion {
        self.unity_version
    }

    /// Whether the file `f` was read already.
    pub open spec fn knows(&self, f: Seq<char>) -> bool {
        listed(self.parsed_files(), f) || listed(self.unparsable_files(), f)
    }

    /// `later` holds all that `self` holds: the same version, and the parsed
    /// assemblies, their files and the unparsable files of `self` as prefixes
    /// of its own.
    pub open spec fn grows_to(&self, later: Self) -> bool {
        &&& later.version() == self.version()
        &&& self.assemblies().is_prefix_of(later.assemblies())
        &&& self.parsed_files().is_prefix_of(later.parsed_files())
        &&& self.unparsable_files().is_prefix_of(later.unparsable_files())
    }

    /// Whether the file of the assembly named `n` was read already or is
    /// one of the files in `absent`.
    pub open spec fn settled(&self, absent: Seq<String>, n: Seq<char>) -> bool {
        self.knows(file_of(n)) || listed(absent, file_of(n))
    }

    pub fn new(unity_version: UnityVersion) -> (r: Self)
        ensures
            r.wf(),
            r.assemblies().len() == 0,
            r.parsed_files().len() == 0,
            r.unparsable_files().len() == 0,
            r.version() == unity_version,
    {
        AssemblyTypeTreeGenerator { universe: Vec::new(), files: Vec::new(), unparsable: Vec::new(), unity_version }
    }

    /// The number of parsed assemblies.
    pub fn parsed_count(&self) -> (r: usize)
        ensures
            r == self.parsed_files().len(),
    {
        self.files.len()
    }

    /// Records the outcome of reading the file `file`, which was not read
    /// before: the parsed assembly, or `None` when its bytes do not parse.
    pub fn add_assembly(&mut self, file: String, assembly: Option<Assembly>)
        requires
            old(self).wf(),
            !old(self).knows(file@),
        ensures
            final(self).wf(),
            ({
                let (a, f, x) = (old(self).assemblies(), old(self).parsed_files(), old(self).unparsable_files());
                match assembly {
                    Some(m) => final(self).assemblies() == a.push(m) && final(self).parsed_files() == f.push(file)
                        && final(self).unparsable_files() == x,
                    None => final(self).assemblies() == a && final(self).parsed_files() == f
                        && final(self).unparsable_files() == x.push(file),
                }
            }),
            final(self).version() == old(self).version(),
            old(self).grows_to(*final(self)),
            final(self).knows(file@),
            forall|g: Seq<char>| old(self).knows(g) ==> final(self).knows(g),
    {
        let ghost f0 = self.files@;
        let ghost x0 = self.unparsable@;
        match assembly {
            Some(m) => {
                self.universe.push(m);
                self.files.push(file);
                proof {
                    let n = self.files@.len() - 1;
                    assert(self.files@[n]@ == file@);
                    assert forall|i: int, k: int| 0 <= i < k < self.files@.len() implies (#[trigger] self.files@[i])@ != (#[trigger] self.files@[k])@ by {
                        if k == n {
                            assert(self.files@[i] == f0[i]);
                        } else {
                            assert(self.files@[i] == f0[i] && self.files@[k] == f0[k]);
                        }
                    }
                    assert forall|g: Seq<char>| listed(f0, g) implies listed(self.files@, g) by {
                        let i = choose|i: int| 0 <= i < f0.len() && (#[trigger] f0[i])@ == g;
                        assert(self.files@[i] == f0[i]);
                    }
                }
            },
            None => {
                self.unparsable.push(file);
                proof {
                    let n = self.unparsable@.len() - 1;
                    assert(self.unparsable@[n]@ == file@);
                    assert forall|g: Seq<char>| listed(x0, g) implies listed(self.unparsable@, g) by {
                        let i = choose|i: int| 0 <= i < x0.len() && (#[trigger] x0[i])@ == g;
                        assert(self.unparsable@[i] == x0[i]);
                    }
                }
            },
        }
    }

    /// Whether the file `f` was read already.
    pub fn is_known(&self, f: &str) -> (r: bool)
        ensures
            r == self.knows(f@),
    {
        let a = list_contains(&self.files, f);
        let b = list_contains(&self.unparsable, f);
        a || b
    }

    /// The file of the first assembly in `missing` that is neither read
    /// already nor one of the files in `absent`.
    fn first_unknown(&self, missing: &Vec<String>, absent: &Vec<String>) -> (r: Option<String>)
        ensures
            match r {
                Some(f) => !self.knows(f@) && !listed(absent@, f@) && exists|n: Seq<char>| #[trigger] names(missing@).contains(n) && f@ == file_of(n),
                None => forall|n: Seq<char>| #[trigger] names(missing@).contains(n) ==> self.settled(absent@, n),
            },
    {
        for i in 0..missing.len()
            invariant
                forall|k: int| 0 <= k < i ==> self.settled(absent@, (#[trigger] missing@[k])@),
        {
            let f = joined(missing[i].as_str(), ".dll");
            if !self.is_known(f.as_str()) && !list_contains(absent, f.as_str()) {
                assert(names(missing@).contains(missing@[i as int]@));
                return Some(f);
            }
        }
        proof {
            assert forall|n: Seq<char>| #[trigger] names(missing@).contains(n) implies self.settled(absent@, n) by {
                let k = choose|k: int| 0 <= k < missing@.len() && (#[trigger] missing@[k])@ == n;
            }
        }
        None
    }

    /// Generates the type tree for `namespace.class_name` defined in the
    /// assembly file `assembly_name`, with the files in `absent` known to be
    /// missing. Asks for the primary assembly and for any assembly that a
    /// field or base type refers to while they are unknown; then answers
    /// `None` if the type can't be resolved (assembly or type absent).
    pub fn generate(&self, assembly_name: &str, namespace: &str, class_name: &str, absent: &Vec<String>) -> (r: Step<Result<Option<TypeTreeNode>, GenerateError>>)
        requires
            self.wf(),
        ensures
            match r {
                Step::Load(f) => !self.knows(f@) && !listed(absent@, f@) && (f@ == assembly_name@ || match position(self.parsed_files(), assembly_name@, 0) {
                    Some(a) => exists|n: Seq<char>| #[trigger] read_needs(self.assemblies(), self.version(), a as usize, namespace@, class_name@).contains(n) && f@ == file_of(n),
                    None => false,
                }),
                Step::Done(x) => match position(self.parsed_files(), assembly_name@, 0) {
                    Some(a) => (forall|n: Seq<char>| #[trigger] read_needs(self.assemblies(), self.version(), a as usize, namespace@, class_name@).contains(n)
                        ==> self.settled(absent@, n)) && match x {
                        Ok(Some(t)) => generated(self.assemblies(), self.version(), a as usize, namespace@, class_name@) == Ok::<Option<NodeModel>, GenerateError>(Some(t@)),
                        Ok(None) => generated(self.assemblies(), self.version(), a as usize, namespace@, class_name@) == Ok::<Option<NodeModel>, GenerateError>(None),
                        Err(e) => generated(self.assemblies(), self.version(), a as usize, namespace@, class_name@) == Err::<Option<NodeModel>, GenerateError>(e),
                    },
                    None => x is Ok && x->Ok_0 is None && (listed(self.unparsable_files(), assembly_name@) || listed(absent@, assembly_name@)),
                },
            },
            !self.knows(assembly_name@) && !listed(absent@, assembly_name@) ==> (r matches Step::Load(f) && f@ == assembly_name@),
    {
        let a = match list_position(&self.files, assembly_name) {
            Some(a) => a,
            None => {
                if self.is_known(assembly_name) || list_contains(absent, assembly_name) {
                    return Step::Done(Ok(None));
                }
                return Step::Load(owned(assembly_name));
            },
        };
        assert(listed(self.files@, assembly_name@)) by {
            assert(self.files@[a as int]@ == assembly_name@);
        }
        let mut missing: Vec<String> = Vec::new();
        assert(names(missing@) =~= Set::empty());
        let children = Generator::read(&self.universe, a, namespace, class_name, self.unity_version, &mut missing);
        assert(names(missing@) =~= read_needs(self.universe@, self.unity_version, a, namespace@, class_name@));
        if let Some(f) = self.first_unknown(&missing, absent) {
            return Step::Load(f);
        }
        match children {
            None => Step::Done(Ok(None)),
            Some(c) => match assemble(c, class_name) {
                Some(t) => Step::Done(Ok(Some(t))),
                None => Step::Done(Err(GenerateError::TooLarge)),
            },
        }
    }

    /// Loads an assembly file so it is available to
    /// [`monobehaviour_definitions`](Self::monobehaviour_definitions): asks for
    /// it while it is unknown, then answers whether it was found and parsed.
    pub fn load_assembly(&self, name: &str, absent: &Vec<String>) -> (r: Step<bool>)
        ensures
            match r {
                Step::Load(f) => f@ == name@ && !self.knows(name@) && !listed(absent@, name@),
                Step::Done(b) => (self.knows(name@) || listed(absent@, name@)) && b == listed(self.parsed_files(), name@),
            },
    {
        if list_contains(&self.files, name) {
            return Step::Done(true);
        }
        if self.is_known(name) || list_contains(absent, name) {
            return Step::Done(false);
        }
        Step::Load(owned(name))
    }

    /// For each of the first `loaded_before` parsed assemblies (those loaded
    /// before the listing started) that defines one, its file name and the
    /// full names of its top-level types that derive (directly or
    /// transitively) from `UnityEngine.MonoBehaviour`. Base types in other
    /// assemblies are asked for while they are unknown; an assembly loaded
    /// for that is not listed itself.
    pub fn monobehaviour_definitions(&self, loaded_before: usize, absent: &Vec<String>) -> (r: Step<Vec<(String, Vec<String>)>>)
        requires
            self.wf(),
        ensures
            ({
                let u = self.assemblies();
                let lim = capped(loaded_before, u.len());
                match r {
                    Step::Load(f) => !self.knows(f@) && !listed(absent@, f@) && exists|n: Seq<char>|
                        #[trigger] mono_defs_needs(u, lim).contains(n) && f@ == file_of(n),
                    Step::Done(d) => {
                        &&& forall|n: Seq<char>| #[trigger] mono_defs_needs(u, lim).contains(n) ==> self.settled(absent@, n)
                        &&& sorted_listing(d@, mono_defs(u, self.parsed_files(), lim))
                        &&& forall|i: int| 0 <= i < d@.len() ==> exists|j: int| 0 <= j < lim && (#[trigger] d@[i]).0@ == self.parsed_files()[j]@
                    },
                }
            }),
    {
        let ghost u = self.universe@;
        let g = Generator { universe: &self.universe, version: self.unity_version };
        let hops = chain_limit(&self.universe);
        let mut missing: Vec<String> = Vec::new();
        let ghost start = missing@;
        proof {
            lemma_records_none(start);
        }
        let mut defs: Vec<(String, Vec<String>)> = Vec::new();
        let ghost mut fm: Seq<int> = Seq::empty();
        let ghost mut gm: Seq<int> = Seq::empty();
        let n = if loaded_before < self.universe.len() { loaded_before } else { self.universe.len() };
        for j in 0..n
            invariant
                n <= u.len(),
                records(start, missing@, mono_defs_needs(u, j as nat)),
                u == self.universe@,
                u == g.u(),
                self.files@.len() == u.len(),
                hops == chain_bound(u),
                distinct_names(self.files@),
                same_entries(defs@, mono_defs(u, self.files@, j as nat), fm, gm),
                forall|i: int, k: int| 0 <= i < k < defs@.len() ==> lex_lt((#[trigger] defs@[i]).0@, (#[trigger] defs@[k]).0@),
        {
            let types = &self.universe[j].types;
            let mut found: Vec<String> = Vec::new();
            let m = types.len();
            let ghost outer = missing@;
            proof {
                lemma_records_none(outer);
            }
            for t in 0..m
                invariant
                    n <= u.len(),
                    records(outer, missing@, mono_types_needs(u, j as int, t as nat)),
                    j < n,
                    u == g.u(),
                    types@ == u[j as int].types@,
                    m == types@.len(),
                    hops == chain_bound(u),
                    found@.len() == mono_types(u, j as int, t as nat).len(),
                    forall|k: int| 0 <= k < found@.len() ==> (#[trigger] found@[k])@ == mono_types(u, j as int, t as nat)[k],
            {
                let d = &types[t];
                let ghost before = missing@;
                proof {
                    lemma_records_none(before);
                }
                if !d.nested && g.derives_from_monobehaviour((j, t), hops, &mut missing) {
                    found.push(owned(d.full_name.as_str()));
                }
                proof {
                    let x = if d.nested {
                        Set::empty()
                    } else {
                        derives_mono_needs(u, (j, t), chain_bound(u))
                    };
                    lemma_records_trans(outer, before, missing@, mono_types_needs(u, j as int, t as nat), x);
                }
            }
            proof {
                lemma_records_trans(start, outer, missing@, mono_defs_needs(u, j as nat), mono_types_needs(u, j as int, m as nat));
            }
            if found.len() > 0 {
                let key = self.files[j].as_str();
                let ghost e = (self.files@[j as int]@, mono_types(u, j as int, m as nat));
                let ghost mj = mono_defs(u, self.files@, j as nat);
                proof {
                    lemma_mono_defs_keys(u, self.files@, j as nat);
                    reveal(entry_is);
                    assert forall|i: int| 0 <= i < defs@.len() implies (#[trigger] defs@[i]).0@ != e.0 by {
                        let k = fm[i];
                        assert(entry_is(defs@[i], mj[k]));
                        let jj = choose|jj: int| 0 <= jj < j && mj[k].0 == (#[trigger] self.files@[jj])@;
                        assert(self.files@[jj]@ != self.files@[j as int]@);
                    }
                }
                let n_defs = defs.len();
                let mut p: usize = 0;
                while p < n_defs
                    invariant
                        n_defs == defs@.len(),
                        p <= n_defs,
                        forall|i: int| 0 <= i < p ==> lex_lt((#[trigger] defs@[i]).0@, key@),
                    ensures
                        p <= n_defs,
                        forall|i: int| 0 <= i < p ==> lex_lt((#[trigger] defs@[i]).0@, key@),
                        p < n_defs ==> !lex_lt(defs@[p as int].0@, key@),
                    decreases n_defs - p,
                {
                    if !text_lt(defs[p].0.as_str(), key) {
                        break;
                    }
                    p = p + 1;
                }
                let x = (owned(key), found);
                proof {
                    reveal(entry_is);
                    assert(entry_is(x, e));
                }
                let ghost before = defs@;
                defs.insert(p, x);
                proof {
                    lemma_inserted(before, x, p as int);
                    lemma_insert_same_entries(before, mj, fm, gm, x, e, p as int, defs@);
                    lemma_insert_ordered(before, x, p as int, defs@);
                    fm = fm.insert(p as int, mj.len() as int);
                    gm = shifted_back(gm, p as int, mj.len());
                    assert(mono_defs(u, self.files@, (j + 1) as nat) == mj.push(e));
                }
            }
        }
        assert(names(missing@) =~= mono_defs_needs(u, n as nat)) by {
            assert(names(start) =~= Set::empty());
        }
        if let Some(f) = self.first_unknown(&missing, absent) {
            proof {
                let w = choose|w: Seq<char>| #[trigger] names(missing@).contains(w) && f@ == file_of(w);
                assert(n as nat == capped(loaded_before, u.len()));
                assert(mono_defs_needs(self.assemblies(), capped(loaded_before, self.assemblies().len())).contains(w));
            }
            return Step::Load(f);
        }
        proof {
            let md = mono_defs(u, self.files@, n as nat);
            lemma_mono_defs_keys(u, self.files@, n as nat);
            reveal(entry_is);
            assert forall|i: int| 0 <= i < defs@.len() implies exists|j: int| 0 <= j < n && (#[trigger] defs@[i]).0@ == self.files@[j]@ by {
                let k = fm[i];
                assert(entry_is(defs@[i], md[k]));
                let j = choose|j: int| 0 <= j < n && md[k].0 == (#[trigger] self.files@[j])@;
            }
            assert(same_entries(defs@, md, fm, gm));
            assert(sorted_listing(defs@, md));
            assert(n as nat == capped(loaded_before, u.len()));
            assert(md == mono_defs(self.assemblies(), self.parsed_files(), capped(loaded_before, self.assemblies().len())));
        }
        Step::Done(defs)
    }
}

/// The keys of the MonoBehaviour listing over the first `n` assemblies are
/// file names of those assemblies, each given once.
pub proof fn lemma_mono_defs_keys(u: Seq<Assembly>, files: Seq<String>, n: nat)
    requires
        n <= u.len(),
        n <= files.len(),
        distinct_names(files),
    ensures
        forall|i: int| 0 <= i < mono_defs(u, files, n).len() ==> exists|j: int| 0 <= j < n && (#[trigger] mono_defs(u, files, n)[i]).0 == (#[trigger] files[j])@,
        forall|i: int, k: int| 0 <= i < k < mono_defs(u, files, n).len() ==> (#[trigger] mono_defs(u, files, n)[i]).0 != (#[trigger] mono_defs(u, files, n)[k]).0,
    decreases n,
{
    if n > 0 {
        let p = mono_defs(u, files, (n - 1) as nat);
        let q = mono_defs(u, files, n);
        lemma_mono_defs_keys(u, files, (n - 1) as nat);
        assert forall|i: int| 0 <= i < q.len() implies exists|j: int| 0 <= j < n && (#[trigger] q[i]).0 == (#[trigger] files[j])@ by {
            if i < p.len() {
                assert(q[i] == p[i]);
                let j = choose|j: int| 0 <= j < n - 1 && p[i].0 == (#[trigger] files[j])@;
            } else {
                assert(q[i].0 == files[n - 1]@);
            }
        }
        assert forall|i: int, k: int| 0 <= i < k < q.len() implies (#[trigger] q[i]).0 != (#[trigger] q[k]).0 by {
            if k < p.len() {
                assert(q[i] == p[i] && q[k] == p[k]);
            } else {
                assert(q[i] == p[i]);
                let j = choose|j: int| 0 <= j < n - 1 && p[i].0 == (#[trigger] files[j])@;
                assert(q[k].0 == files[n - 1]@);
                assert(files[j]@ != files[n - 1]@);
            }
        }
    }
}

/// Whether `a` comes before `b` in the order of their characters' code
/// points, a proper prefix first: the order of `String`'s `Ord`.
pub open spec fn lex_lt(a: Seq<char>, b: Seq<char>) -> bool
    decreases a.len(),
{
    if a.len() == 0 {
        b.len() > 0
    } else if b.len() == 0 {
        false
    } else if a[0] == b[0] {
        lex_lt(a.drop_first(), b.drop_first())
    } else {
        (a[0] as int) < (b[0] as int)
    }
}

pub proof fn lemma_lex_transitive(a: Seq<char>, b: Seq<char>, c: Seq<char>)
    requires
        lex_lt(a, b),
        lex_lt(b, c),
    ensures
        lex_lt(a, c),
    decreases a.len(),
{
    if a.len() > 0 && b.len() > 0 && c.len() > 0 && a[0] == b[0] && b[0] == c[0] {
        lemma_lex_transitive(a.drop_first(), b.drop_first(), c.drop_first());
    }
}

pub proof fn lemma_lex_total(a: Seq<char>, b: Seq<char>)
    requires
        a != b,
    ensures
        lex_lt(a, b) || lex_lt(b, a),
    decreases a.len(),
{
    if a.len() > 0 && b.len() > 0 {
        if a[0] == b[0] {
            if a.drop_first() == b.drop_first() {
                assert(a =~= seq![a[0]] + a.drop_first());
                assert(b =~= seq![b[0]] + b.drop_first());
            }
            lemma_lex_total(a.drop_first(), b.drop_first());
        } else {
            assert((a[0] as int) != (b[0] as int));
        }
    } else if a.len() == 0 && b.len() == 0 {
        assert(a =~= b);
    }
}

/// Whether `a` comes before `b` in the order of [`lex_lt`].
pub fn text_lt(a: &str, b: &str) -> (r: bool)
    ensures
        r == lex_lt(a@, b@),
{
    let n = a.unicode_len();
    let m = b.unicode_len();
    let mut i: usize = 0;
    assert(a@.skip(0) =~= a@);
    assert(b@.skip(0) =~= b@);
    while i < n && i < m
        invariant
            n == a@.len(),
            m == b@.len(),
            i <= n,
            i <= m,
            lex_lt(a@, b@) == lex_lt(a@.skip(i as int), b@.skip(i as int)),
        decreases n - i,
    {
        let ca = a.get_char(i);
        let cb = b.get_char(i);
        assert(a@.skip(i as int)[0] == ca);
        assert(b@.skip(i as int)[0] == cb);
        if ca != cb {
            return (ca as u32) < (cb as u32);
        }
        assert(a@.skip(i as int).drop_first() =~= a@.skip(i + 1));
        assert(b@.skip(i as int).drop_first() =~= b@.skip(i + 1));
        i = i + 1;
    }
    i == n && i < m
}

/// Whether the listing entry `d` holds the file name and the type names of `e`.
#[verifier::opaque]
pub open spec fn entry_is(d: (String, Vec<String>), e: (Seq<char>, Seq<Seq<char>>)) -> bool {
    &&& d.0@ == e.0
    &&& d.1@.len() == e.1.len()
    &&& forall|k: int| 0 <= k < e.1.len() ==> (#[trigger] d.1@[k])@ == e.1[k]
}

/// `d` and `m` hold the same entries: entry `i` of `d` is entry `f[i]` of
/// `m`, and entry `k` of `m` is entry `g[k]` of `d`.
pub open spec fn same_entries(d: Seq<(String, Vec<String>)>, m: Seq<(Seq<char>, Seq<Seq<char>>)>, f: Seq<int>, g: Seq<int>) -> bool {
    &&& d.len() == m.len()
    &&& f.len() == d.len()
    &&& g.len() == m.len()
    &&& forall|i: int| 0 <= i < d.len() ==> 0 <= #[trigger] f[i] < m.len() && entry_is(d[i], m[f[i]])
    &&& forall|k: int| 0 <= k < m.len() ==> 0 <= #[trigger] g[k] < d.len() && entry_is(d[g[k]], m[k])
}

/// `d` holds the entries of `m`, each once, in strictly increasing order of
/// file name.
pub open spec fn sorted_listing(d: Seq<(String, Vec<String>)>, m: Seq<(Seq<char>, Seq<Seq<char>>)>) -> bool {
    &&& exists|f: Seq<int>, g: Seq<int>| #[trigger] same_entries(d, m, f, g)
    &&& forall|i: int, k: int| 0 <= i < k < d.len() ==> lex_lt((#[trigger] d[i]).0@, (#[trigger] d[k]).0@)
}

/// `d2` is `d` with `x` inserted at `p`.
pub open spec fn inserted<T>(d: Seq<T>, x: T, p: int, d2: Seq<T>) -> bool {
    &&& 0 <= p <= d.len()
    &&& d2.len() == d.len() + 1
    &&& d2[p] == x
    &&& forall|i: int| 0 <= i < p ==> d2[i] == #[trigger] d[i]
    &&& forall|i: int| p <= i < d.len() ==> d2[i + 1] == #[trigger] d[i]
}

proof fn lemma_inserted<T>(d: Seq<T>, x: T, p: int)
    requires
        0 <= p <= d.len(),
    ensures
        inserted(d, x, p, d.insert(p, x)),
{
    d.insert_ensures(p, x);
}

/// The index maps after inserting entry `x` (for `e`) into `d` at `p`.
pub open spec fn shifted_back(g: Seq<int>, p: int, n: nat) -> Seq<int> {
    Seq::new(n + 1, |k: int| if k == n { p } else if g[k] >= p { g[k] + 1 } else { g[k] })
}

proof fn lemma_insert_same_entries(d: Seq<(String, Vec<String>)>, m: Seq<(Seq<char>, Seq<Seq<char>>)>, f: Seq<int>, g: Seq<int>, x: (String, Vec<String>), e: (Seq<char>, Seq<Seq<char>>), p: int, d2: Seq<(String, Vec<String>)>)
    requires
        same_entries(d, m, f, g),
        entry_is(x, e),
        inserted(d, x, p, d2),
    ensures
        same_entries(d2, m.push(e), f.insert(p, m.len() as int), shifted_back(g, p, m.len())),
{
    let m2 = m.push(e);
    let f2 = f.insert(p, m.len() as int);
    let g2 = shifted_back(g, p, m.len());
    f.insert_ensures(p, m.len() as int);
    assert forall|i: int| 0 <= i < d2.len() implies 0 <= #[trigger] f2[i] < m2.len() && entry_is(d2[i], m2[f2[i]]) by {
        if i < p {
            assert(d2[i] == d[i] && f2[i] == f[i]);
            assert(m2[f[i]] == m[f[i]]);
        } else if i == p {
        } else {
            assert(d2[i] == d[i - 1] && f2[i] == f[i - 1]);
            assert(m2[f[i - 1]] == m[f[i - 1]]);
        }
    }
    assert forall|k: int| 0 <= k < m2.len() implies 0 <= #[trigger] g2[k] < d2.len() && entry_is(d2[g2[k]], m2[k]) by {
        if k < m.len() {
            assert(m2[k] == m[k]);
            if g[k] >= p {
                assert(d2[g[k] + 1] == d[g[k]]);
            } else {
                assert(d2[g[k]] == d[g[k]]);
            }
        }
    }
}

proof fn lemma_insert_ordered(d: Seq<(String, Vec<String>)>, x: (String, Vec<String>), p: int, d2: Seq<(String, Vec<String>)>)
    requires
        forall|i: int, k: int| 0 <= i < k < d.len() ==> lex_lt((#[trigger] d[i]).0@, (#[trigger] d[k]).0@),
        inserted(d, x, p, d2),
        forall|i: int| 0 <= i < p ==> lex_lt((#[trigger] d[i]).0@, x.0@),
        p < d.len() ==> !lex_lt(d[p].0@, x.0@),
        forall|i: int| 0 <= i < d.len() ==> (#[trigger] d[i]).0@ != x.0@,
    ensures
        forall|i: int, k: int| 0 <= i < k < d2.len() ==> lex_lt((#[trigger] d2[i]).0@, (#[trigger] d2[k]).0@),
{
    if p < d.len() {
        lemma_lex_total(d[p].0@, x.0@);
    }
    assert forall|i: int, k: int| 0 <= i < k < d2.len() implies lex_lt((#[trigger] d2[i]).0@, (#[trigger] d2[k]).0@) by {
        if i == p {
            let ok = k - 1;
            assert(d2[k] == d[ok]);
            if ok > p {
                lemma_lex_transitive(x.0@, d[p].0@, d[ok].0@);
            }
        } else if k == p {
            assert(d2[i] == d[i]);
        } else {
            let oi = if i < p { i } else { i - 1 };
            let ok = if k < p { k } else { k - 1 };
            assert(d2[i] == d[oi]);
            assert(d2[k] == d[ok]);
        }
    }
}

/// Whether `f` is one of the names in `l`.
pub fn list_contains(l: &Vec<String>, f: &str) -> (r: bool)
    ensures
        r == listed(l@, f@),
{
    for i in 0..l.len()
        invariant
            forall|j: int| 0 <= j < i ==> (#[trigger] l@[j])@ != f@,
    {
        if text_eq(l[i].as_str(), f) {
            return true;
        }
    }
    false
}

/// The index of the first name in `l` equal to `f`.
pub fn list_position(l: &Vec<String>, f: &str) -> (r: Option<usize>)
    ensures
        match r {
            Some(i) => position(l@, f@, 0) == Some(i as int) && i < l@.len() && l@[i as int]@ == f@,
            None => position(l@, f@, 0) is None && !listed(l@, f@),
        },
{
    let n = l.len();
    let mut i: usize = 0;
    while i < n
        invariant
            n == l@.len(),
            i <= n,
            position(l@, f@, 0) == position(l@, f@, i as int),
            forall|j: int| 0 <= j < i ==> (#[trigger] l@[j])@ != f@,
        decreases n - i,
    {
        if text_eq(l[i].as_str(), f) {
            return Some(i);
        }
        i = i + 1;
    }
    None
}


/// Generating a type through an assembly that only forwards it (such as the
/// `UnityEngine` facade) answers exactly as generating it in the assembly
/// that defines it.
pub proof fn law_forwarded_type_generates_as_its_defining_assembly(u: Seq<Assembly>, v: UnityVersion, a: usize, b: usize, ns: Seq<char>, name: Seq<char>)
    requires
        a < u.len(),
        first_top_level(u[a as int].types@, ns, name, 0) is None,
        first_forwarder(u[a as int].forwarders@, ns, name, 0) matches Some(f)
            && first_assembly(u, u[a as int].forwarders@[f].assembly@, 0) == Some(b as int),
        first_top_level(u[b as int].types@, ns, name, 0) is Some,
    ensures
        generated(u, v, a, ns, name) == generated(u, v, b, ns, name),
{
    law_forwarded_type_reads_its_defining_assembly(u, v, a, b, ns, name);
}

/// Growing is transitive: a state reached by several additions holds all
/// that the first one held.
pub proof fn law_growth_is_transitive(a: AssemblyTypeTreeGenerator, b: AssemblyTypeTreeGenerator, c: AssemblyTypeTreeGenerator)
    requires
        a.grows_to(b),
        b.grows_to(c),
    ensures
        a.grows_to(c),
{
    assert(a.assemblies() =~= c.assemblies().subrange(0, a.assemblies().len() as int));
    assert(a.parsed_files() =~= c.parsed_files().subrange(0, a.parsed_files().len() as int));
    assert(a.unparsable_files() =~= c.unparsable_files().subrange(0, a.unparsable_files().len() as int));
}

/// A file that was read stays known in every later state, and a parsed
/// assembly stays where it is: since a step asks only for files that are not
/// known, no file is read twice, and what was parsed once is used from then on.
pub proof fn law_read_files_are_kept(a: AssemblyTypeTreeGenerator, b: AssemblyTypeTreeGenerator, f: Seq<char>, i: int)
    requires
        a.wf(),
        a.grows_to(b),
    ensures
        a.knows(f) ==> b.knows(f),
        0 <= i < a.assemblies().len() ==> b.assemblies()[i] == a.assemblies()[i] && b.parsed_files()[i] == a.parsed_files()[i],
{
    if listed(a.parsed_files(), f) {
        let k = choose|k: int| 0 <= k < a.parsed_files().len() && (#[trigger] a.parsed_files()[k])@ == f;
        assert(b.parsed_files()[k] == a.parsed_files()[k]);
    }
    if listed(a.unparsable_files(), f) {
        let k = choose|k: int| 0 <= k < a.unparsable_files().len() && (#[trigger] a.unparsable_files()[k])@ == f;
        assert(b.unparsable_files()[k] == a.unparsable_files()[k]);
    }
    if 0 <= i < a.assemblies().len() {
        assert(b.assemblies()[i] == b.assemblies().subrange(0, a.assemblies().len() as int)[i]);
        assert(b.parsed_files()[i] == b.parsed_files().subrange(0, a.parsed_files().len() as int)[i]);
    }
}

/// Each name that the MonoBehaviour listing gives for an assembly is the
/// full name of a top-level type of it that derives from `MonoBehaviour`.
pub proof fn law_listed_types_are_top_level_monobehaviours(u: Seq<Assembly>, j: int, n: nat, k: int)
    requires
        0 <= j < u.len(),
        n <= u[j].types@.len(),
        0 <= k < mono_types(u, j, n).len(),
    ensures
        exists|t: int| 0 <= t < n && !(#[trigger] u[j].types@[t]).nested
            && derives_mono(u, (j as usize, t as usize), chain_bound(u)) && u[j].types@[t].full_name@ == mono_types(u, j, n)[k],
    decreases n,
{
    let p = mono_types(u, j, (n - 1) as nat);
    let t = n - 1;
    if k < p.len() {
        law_listed_types_are_top_level_monobehaviours(u, j, (n - 1) as nat, k);
        let w = choose|w: int| 0 <= w < n - 1 && !(#[trigger] u[j].types@[w]).nested
            && derives_mono(u, (j as usize, w as usize), chain_bound(u)) && u[j].types@[w].full_name@ == p[k];
        assert(mono_types(u, j, n)[k] == p[k]);
        assert(u[j].types@[w].full_name@ == mono_types(u, j, n)[k]);
    } else {
        assert(u[j].types@[t].full_name@ == mono_types(u, j, n)[k]);
    }
}
/// Whether some top-level type of assembly `j` derives from `UnityEngine.MonoBehaviour`.
pub open spec fn defines_monobehaviour(u: Seq<Assembly>, j: int) -> bool {
    exists|t: int| 0 <= t < u[j].types@.len() && !(#[trigger] u[j].types@[t]).nested
        && derives_mono(u, (j as usize, t as usize), chain_bound(u))
}

proof fn lemma_mono_types_nonempty(u: Seq<Assembly>, j: int, n: nat)
    requires
        0 <= j < u.len(),
        n <= u[j].types@.len(),
    ensures
        mono_types(u, j, n).len() > 0 <==> exists|t: int| 0 <= t < n && !(#[trigger] u[j].types@[t]).nested
            && derives_mono(u, (j as usize, t as usize), chain_bound(u)),
    decreases n,
{
    if n > 0 {
        lemma_mono_types_nonempty(u, j, (n - 1) as nat);
        let t = (n - 1) as int;
        if mono_types(u, j, (n - 1) as nat).len() > 0 {
            let w = choose|w: int| 0 <= w < n - 1 && !(#[trigger] u[j].types@[w]).nested
                && derives_mono(u, (j as usize, w as usize), chain_bound(u));
            assert(0 <= w < n);
        }
        if exists|w: int| 0 <= w < n && !(#[trigger] u[j].types@[w]).nested && derives_mono(u, (j as usize, w as usize), chain_bound(u)) {
            let w = choose|w: int| 0 <= w < n && !(#[trigger] u[j].types@[w]).nested
                && derives_mono(u, (j as usize, w as usize), chain_bound(u));
            if w < n - 1 {
                assert(mono_types(u, j, (n - 1) as nat).len() > 0);
            }
        }
    }
}

/// The MonoBehaviour listing over the first `n` assemblies has an entry
/// exactly for each assembly that defines a top-level MonoBehaviour: every
/// entry names such an assembly's file and lists at least one type, and
/// every such assembly's file has an entry.
pub proof fn law_listing_has_exactly_the_defining_files(u: Seq<Assembly>, files: Seq<String>, n: nat)
    requires
        n <= u.len(),
        n <= files.len(),
    ensures
        forall|i: int| 0 <= i < mono_defs(u, files, n).len() ==> (#[trigger] mono_defs(u, files, n)[i]).1.len() > 0
            && exists|j: int| 0 <= j < n && defines_monobehaviour(u, j) && mono_defs(u, files, n)[i].0 == (#[trigger] files[j])@,
        forall|j: int| 0 <= j < n && #[trigger] defines_monobehaviour(u, j) ==> exists|i: int| 0 <= i < mono_defs(u, files, n).len()
            && (#[trigger] mono_defs(u, files, n)[i]).0 == files[j]@,
    decreases n,
{
    if n > 0 {
        law_listing_has_exactly_the_defining_files(u, files, (n - 1) as nat);
        let p = mono_defs(u, files, (n - 1) as nat);
        let q = mono_defs(u, files, n);
        let j = (n - 1) as int;
        let m = mono_types(u, j, u[j].types@.len());
        lemma_mono_types_nonempty(u, j, u[j].types@.len());
        assert forall|i: int| 0 <= i < q.len() implies (#[trigger] q[i]).1.len() > 0
            && exists|jj: int| 0 <= jj < n && defines_monobehaviour(u, jj) && q[i].0 == (#[trigger] files[jj])@ by {
            if i < p.len() {
                assert(q[i] == p[i]);
                let jj = choose|jj: int| 0 <= jj < n - 1 && defines_monobehaviour(u, jj) && p[i].0 == (#[trigger] files[jj])@;
                assert(0 <= jj < n);
            } else {
                assert(q[i] == (files[j]@, m));
                assert(defines_monobehaviour(u, j));
            }
        }
        assert forall|jj: int| 0 <= jj < n && #[trigger] defines_monobehaviour(u, jj) implies exists|i: int| 0 <= i < q.len()
            && (#[trigger] q[i]).0 == files[jj]@ by {
            if jj < n - 1 {
                let i = choose|i: int| 0 <= i < p.len() && (#[trigger] p[i]).0 == files[jj]@;
                assert(q[i] == p[i]);
            } else {
                assert(m.len() > 0);
                assert(q[p.len() as int].0 == files[jj]@);
            }
        }
    }
}

} // verus!
