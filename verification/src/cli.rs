//! Command-line settings, and how mock files are named in the mock table.

use vstd::prelude::*;

use crate::mock_engine::{copy_string, MockBlock};
use crate::strings::{push_str, string_of};
use crate::strmap::{assoc_insert_all, StrMap};
use crate::text::{join, join_exec};

verus! {

broadcast use vstd::string::group_string_axioms;

/// The server's settings.
#[derive(Debug)]
pub struct Cli {
    /// TCP port to listen on.
    pub port: u16,
    /// Host or IP to bind.
    pub host: String,
    /// Directory of mock files.
    pub mocks: Option<String>,
    /// Single mock file.
    pub mock: Option<String>,
    /// Whether to watch the mock directory.
    pub watch: bool,
}

/// Where the mocks come from.
#[derive(Debug)]
pub enum MockSource {
    File(String),
    Dir(String),
}

/// Settings that cannot be used.
#[derive(Debug)]
pub enum ConfigError {
    /// Neither a mock file nor a mock directory was given.
    NoMockSource,
}

impl ConfigError {
    /// A description of the error.
    pub fn message(&self) -> (m: &'static str)
        ensures
            m@ == "You must provide etiher --mock <file> or --mocks <dir>"@,
    {
        "You must provide etiher --mock <file> or --mocks <dir>"
    }
}

/// The key of mock `name` from a file whose namespace is `base`.
pub open spec fn mock_key(base: Seq<char>, name: Seq<char>) -> Seq<char> {
    base + "::"@ + name
}

/// The namespace of a mock file: the directories between the mock root and
/// the file, joined with `::`; for a file right in the root, its stem.
pub open spec fn mock_namespace(components: Seq<Seq<char>>, stem: Seq<char>) -> Seq<char> {
    let joined = join(components, "::"@);
    if joined.len() == 0 {
        stem
    } else {
        joined
    }
}

/// The entries of a mock file, keyed within the namespace `base`.
pub open spec fn keyed_mocks(base: Seq<char>, mocks: Seq<(Seq<char>, MockBlock)>) -> Seq<
    (Seq<char>, MockBlock),
> {
    mocks.map_values(|e: (Seq<char>, MockBlock)| (mock_key(base, e.0), e.1))
}

impl Cli {
    /// Where to load the mocks from: the file when one is given, else the
    /// directory; an error when neither is.
    pub fn mock_source(&self) -> (r: Result<MockSource, ConfigError>)
        ensures
            self.mock matches Some(f) ==> (r matches Ok(MockSource::File(g)) && g@ == f@),
            self.mock is None ==> (self.mocks matches Some(d) ==> (r matches Ok(MockSource::Dir(e))
                && e@ == d@)),
            self.mock is None && self.mocks is None ==> r matches Err(ConfigError::NoMockSource),
    {
        match (&self.mock, &self.mocks) {
            (Some(file), _) => Ok(MockSource::File(copy_string(file))),
            (_, Some(dir)) => Ok(MockSource::Dir(copy_string(dir))),
            _ => Err(ConfigError::NoMockSource),
        }
    }

    /// The namespace of a mock file from the names of the directories between
    /// the mock root and the file, and the file's stem.
    pub fn mock_namespace(components: &Vec<String>, file_stem: &str) -> (ns: String)
        ensures
            ns@ == mock_namespace(components@.map_values(|c: String| c@), file_stem@),
    {
        let mut parts: Vec<Vec<char>> = Vec::new();
        let mut i: usize = 0;
        while i < components.len()
            invariant
                i <= components.len(),
                crate::text::char_vecs(parts@) == components@.map_values(|c: String| c@).subrange(
                    0,
                    i as int,
                ),
            decreases components.len() - i,
        {
            let cs = crate::strings::chars_of(components[i].as_str());
            let ghost before = crate::text::char_vecs(parts@);
            parts.push(cs);
            assert(crate::text::char_vecs(parts@) =~= before.push(components@[i as int]@));
            i += 1;
            assert(crate::text::char_vecs(parts@) =~= components@.map_values(|c: String| c@).subrange(
                0,
                i as int,
            ));
        }
        assert(components@.map_values(|c: String| c@).subrange(0, components@.len() as int)
            =~= components@.map_values(|c: String| c@));
        let sep = crate::strings::chars_of("::");
        let joined = join_exec(&parts, sep.as_slice());
        if joined.len() == 0 {
            string_of(crate::strings::chars_of(file_stem).as_slice())
        } else {
            string_of(joined.as_slice())
        }
    }

    /// The key of mock `name` in namespace `base`: `base::name`.
    pub fn mock_key(base: &str, name: &str) -> (k: String)
        ensures
            k@ == mock_key(base@, name@),
    {
        let mut out: Vec<char> = Vec::new();
        push_str(&mut out, base);
        push_str(&mut out, "::");
        push_str(&mut out, name);
        string_of(out.as_slice())
    }

    /// Adds the mocks of one file, whose namespace is `base`, to the table.
    pub fn register_mocks(all: &mut StrMap<MockBlock>, base: &str, mocks: StrMap<MockBlock>)
        ensures
            final(all)@ == assoc_insert_all(old(all)@, keyed_mocks(base@, mocks@)),
    {
        let ghost src = mocks@;
        let mut pairs = mocks.into_pairs();
        let mut keyed: Vec<(String, MockBlock)> = Vec::new();
        let mut done: usize = 0;
        let ghost target = keyed_mocks(base@, src);
        let n = pairs.len();
        assert(pairs@.map_values(|e: (String, MockBlock)| (e.0@, e.1)).len() == pairs@.len());
        assert(src.len() == n);
        assert(src.subrange(0, src.len() as int) =~= src);
        assert(keyed@.map_values(|e: (String, MockBlock)| (e.0@, e.1)) =~= target.subrange(0, 0));
        while pairs.len() > 0
            invariant
                done + pairs@.len() == src.len(),
                src.len() <= usize::MAX,
                pairs@.map_values(|e: (String, MockBlock)| (e.0@, e.1)) == src.subrange(
                    done as int,
                    src.len() as int,
                ),
                target == keyed_mocks(base@, src),
                keyed@.map_values(|e: (String, MockBlock)| (e.0@, e.1)) == target.subrange(
                    0,
                    done as int,
                ),
            decreases pairs.len(),
        {
            let ghost old_pairs = pairs@;
            assert(old_pairs.map_values(|e: (String, MockBlock)| (e.0@, e.1))[0] == src[done as int]);
            let (name, mock) = pairs.remove(0);
            assert(old_pairs[0] == (name, mock));
            let key = Cli::mock_key(base, name.as_str());
            let ghost before = keyed@.map_values(|e: (String, MockBlock)| (e.0@, e.1));
            assert(target[done as int] == (mock_key(base@, name@), mock));
            keyed.push((key, mock));
            assert(keyed@.map_values(|e: (String, MockBlock)| (e.0@, e.1)) =~= before.push(
                target[done as int],
            ));
            done += 1;
            assert forall|j: int| 0 <= j < pairs@.len() implies pairs@[j] == old_pairs[j + 1] by {}
            assert forall|j: int| 0 <= j < pairs@.len() implies (#[trigger] pairs@[j]).0@ == src[done
                + j].0 && pairs@[j].1 == src[done + j].1 by {
                assert(old_pairs.map_values(|e: (String, MockBlock)| (e.0@, e.1))[j + 1] == src[done
                    + j]);
            }
            assert(pairs@.map_values(|e: (String, MockBlock)| (e.0@, e.1)) =~= src.subrange(
                done as int,
                src.len() as int,
            ));
            assert(keyed@.map_values(|e: (String, MockBlock)| (e.0@, e.1)) =~= target.subrange(
                0,
                done as int,
            ));
        }
        assert(target.subrange(0, src.len() as int) =~= target);
        all.extend_pairs(keyed);
    }
}

/// `join` keeps its first piece at the front.
proof fn lemma_join_starts_with_first(parts: Seq<Seq<char>>)
    requires
        parts.len() >= 1,
    ensures
        join(parts, "::"@).len() >= parts[0].len(),
    decreases parts.len(),
{
    if parts.len() > 1 {
        lemma_join_starts_with_first(parts.drop_last());
    }
}

/// The namespace of a mock file is the names of the directories between the
/// mock root and the file joined with `::`: a single directory is the whole
/// namespace, each further directory adds `::` and its name, and the file's
/// stem is used only for a file directly under the root.
pub proof fn law_namespace_from_directories(dirs: Seq<Seq<char>>, stem: Seq<char>, next: Seq<char>)
    ensures
        mock_namespace(Seq::empty(), stem) == stem,
        dirs.len() == 1 && dirs[0].len() > 0 ==> mock_namespace(dirs, stem) == dirs[0],
        dirs.len() >= 1 && dirs[0].len() > 0 ==> mock_namespace(dirs.push(next), stem)
            == mock_namespace(dirs, stem) + "::"@ + next,
{
    if dirs.len() >= 1 && dirs[0].len() > 0 {
        lemma_join_starts_with_first(dirs);
        lemma_join_starts_with_first(dirs.push(next));
        assert(dirs.push(next)[0] == dirs[0]);
        assert(dirs.push(next).drop_last() =~= dirs);
    }
}

/// Each mock of a file is keyed `namespace::name`: the key splits on `::`
/// into the file's namespace and the mock's own name (neither holding a
/// `:`), and it keeps its mock; the entries keep their order.
pub proof fn law_mock_keys_are_namespaced(
    base: Seq<char>,
    mocks: Seq<(Seq<char>, MockBlock)>,
    i: int,
)
    requires
        0 <= i < mocks.len(),
        crate::text::lacks(base, ':'),
        crate::text::lacks(mocks[i].0, ':'),
    ensures
        keyed_mocks(base, mocks).len() == mocks.len(),
        crate::text::split(keyed_mocks(base, mocks)[i].0, seq![':', ':']) == seq![base, mocks[i].0],
        keyed_mocks(base, mocks)[i].1 == mocks[i].1,
{
    reveal_strlit("::");
    let name = mocks[i].0;
    let sep = seq![':', ':'];
    assert(keyed_mocks(base, mocks)[i].0 == base + sep + name);
    assert forall|k: int| 0 <= k < base.len() implies !crate::text::occurs_at(
        base + sep + name,
        sep,
        k,
    ) by {
        assert((base + sep + name).subrange(k, k + 2)[0] == (base + sep + name)[k]);
        assert((base + sep + name)[k] == base[k]);
    }
    crate::text::lemma_split_first_piece_sep(base, sep, name);
    assert forall|j: int| 0 <= j implies !crate::text::occurs_at(name, sep, j) by {
        if crate::text::occurs_at(name, sep, j) {
            assert(name.subrange(j, j + 2)[0] == name[j]);
        }
    }
    crate::text::lemma_split_rec_none(name, sep, 0, 0);
    assert(name.subrange(0, name.len() as int) =~= name);
}

} // verus!
