//! One pattern module found under the source root.

use itertools::Itertools;
use vstd::prelude::*;
use vstd::string::StringExecFns;

verus! {

/// The pieces of `text` between the occurrences of `sep`: one more piece than
/// there are occurrences, empty pieces included.
pub open spec fn split(text: Seq<char>, sep: char) -> Seq<Seq<char>>
    decreases text.len(),
{
    if text.len() == 0 {
        seq![Seq::empty()]
    } else {
        let before = split(text.drop_last(), sep);
        if text.last() == sep {
            before.push(Seq::empty())
        } else {
            before.update(before.len() - 1, before.last().push(text.last()))
        }
    }
}

/// A text without `sep` is one piece.
pub proof fn lemma_split_whole(text: Seq<char>, sep: char)
    requires
        !text.contains(sep),
    ensures
        split(text, sep) == seq![text],
    decreases text.len(),
{
    if text.len() == 0 {
        assert(text == Seq::<char>::empty());
    } else {
        let front = text.drop_last();
        assert forall|i: int| 0 <= i < front.len() implies front[i] != sep by {
            assert(text[i] == front[i]);
        }
        lemma_split_whole(front, sep);
        assert(text.last() == text[text.len() - 1]);
        assert(front.push(text.last()) == text);
        assert(seq![front].update(0, text) == seq![text]);
    }
}

/// There is always at least one piece.
pub proof fn lemma_split_len(text: Seq<char>, sep: char)
    ensures
        split(text, sep).len() >= 1,
    decreases text.len(),
{
    if text.len() > 0 {
        lemma_split_len(text.drop_last(), sep);
    }
}

/// The pieces of two texts with `sep` between them are the pieces of the
/// first, then those of the second.
pub proof fn lemma_split_joined(a: Seq<char>, b: Seq<char>, sep: char)
    ensures
        split(a + seq![sep] + b, sep) == split(a, sep) + split(b, sep),
    decreases b.len(),
{
    let text = a + seq![sep] + b;
    if b.len() == 0 {
        assert(text.drop_last() == a);
        assert(split(a, sep).push(Seq::empty()) == split(a, sep) + seq![Seq::<char>::empty()]);
    } else {
        let front = b.drop_last();
        assert(text.drop_last() == a + seq![sep] + front);
        lemma_split_joined(a, front, sep);
        lemma_split_len(front, sep);
        let pieces = split(front, sep);
        if b.last() == sep {
            assert((split(a, sep) + pieces).push(Seq::empty()) == split(a, sep) + pieces.push(
                Seq::empty(),
            ));
        } else {
            let all = split(a, sep) + pieces;
            assert(all.update(all.len() - 1, all.last().push(b.last())) == split(a, sep)
                + pieces.update(pieces.len() - 1, pieces.last().push(b.last())));
        }
    }
}

/// What a module is made of: its path, the pattern family it belongs to and
/// its own name.
pub struct ModuleView {
    pub path: Seq<char>,
    pub pattern: Seq<char>,
    pub name: Seq<char>,
}

impl ModuleView {
    /// The pattern and the name are the second and the third piece of the
    /// path.
    pub open spec fn decomposed(self) -> bool {
        let parts = split(self.path, '/');
        &&& parts.len() >= 3
        &&& self.pattern == parts[1]
        &&& self.name == parts[2]
    }
}

/// The module that lies at `path`.
pub open spec fn module_at(path: Seq<char>) -> ModuleView {
    let parts = split(path, '/');
    ModuleView { path, pattern: parts[1], name: parts[2] }
}

/// The module found at `root/pattern/name` has that pattern and that name,
/// where none of the three holds a slash.
pub proof fn lemma_module_at_path(root: Seq<char>, pattern: Seq<char>, name: Seq<char>)
    requires
        !root.contains('/'),
        !pattern.contains('/'),
        !name.contains('/'),
    ensures
        module_at(root + seq!['/'] + pattern + seq!['/'] + name) == (ModuleView {
            path: root + seq!['/'] + pattern + seq!['/'] + name,
            pattern,
            name,
        }),
        module_at(root + seq!['/'] + pattern + seq!['/'] + name).decomposed(),
{
    lemma_split_joined(root + seq!['/'] + pattern, name, '/');
    lemma_split_joined(root, pattern, '/');
    lemma_split_whole(root, '/');
    lemma_split_whole(pattern, '/');
    lemma_split_whole(name, '/');
    assert(seq![root] + seq![pattern] + seq![name] == seq![root, pattern, name]);
}

/// A directory that holds the implementation of one pattern.
#[derive(Debug)]
pub struct Module {
    pub(crate) path: String,
    pub(crate) pattern: String,
    pub(crate) name: String,
}

impl View for Module {
    type V = ModuleView;

    closed spec fn view(&self) -> ModuleView {
        ModuleView { path: self.path@, pattern: self.pattern@, name: self.name@ }
    }
}

impl DeepView for Module {
    type V = ModuleView;

    open spec fn deep_view(&self) -> ModuleView {
        self@
    }
}

/// The pieces of `path` between its slashes, by `str::split` and itertools'
/// `collect_vec`. Trusted: the pieces are those of `split`, in their order.
#[verifier::external_body]
fn split_path<'a>(path: &'a str) -> (parts: Vec<&'a str>)
    ensures
        parts.deep_view() == split(path@, '/'),
{
    path.split('/').collect_vec()
}

impl Module {
    #[verifier::type_invariant]
    spec fn well_formed(self) -> bool {
        self@.decomposed()
    }

    /// The module at `path`, which has the form `root/pattern/name`: at least
    /// three pieces between slashes.
    pub fn new(path: &str) -> (module: Self)
        requires
            split(path@, '/').len() >= 3,
        ensures
            module@ == module_at(path@),
    {
        let parts = split_path(path);
        assert(parts.deep_view()[1] == parts[1]@);
        assert(parts.deep_view()[2] == parts[2]@);
        Self {
            path: String::from_str(path),
            pattern: String::from_str(parts[1]),
            name: String::from_str(parts[2]),
        }
    }

    /// The path of the module's directory, as it was found.
    pub fn path(&self) -> (path: &str)
        ensures
            path@ == self@.path,
            self@.decomposed(),
    {
        proof {
            use_type_invariant(self);
        }
        self.path.as_str()
    }

    /// The pattern family: the directory that holds the module's directory.
    pub fn pattern(&self) -> (pattern: &str)
        ensures
            pattern@ == self@.pattern,
            self@.decomposed(),
    {
        proof {
            use_type_invariant(self);
        }
        self.pattern.as_str()
    }

    /// The name of the module's directory.
    pub fn name(&self) -> (name: &str)
        ensures
            name@ == self@.name,
            self@.decomposed(),
    {
        proof {
            use_type_invariant(self);
        }
        self.name.as_str()
    }
}

} // verus!
