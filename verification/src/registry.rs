//! The theme registry's name table: built-in theme names (read-only) plus
//! user themes, each a file in a directory the host owns, resolvable by name
//! case-insensitively. A user file overrides a built-in of the same name.
//!
//! This is the bookkeeping only — which names are listed, which are
//! built-ins, and which file a name resolves to. Reading, writing and deleting
//! the files, and turning a file into a theme, is the host's side; the
//! registry is generic over the host's path type `P`.
use vstd::prelude::*;
use crate::text::{join, lowercase, string_of_chars, to_lower};
use crate::theme::collect_chars;

verus! {

/// What a host's theme type offers for persistence: its display name (also
/// the user-file stem) and its serialised text, which the host's parser reads
/// back.
pub trait NamedTheme {
    /// The theme's display name (also the user-file stem).
    fn theme_name(&self) -> &str;

    /// The theme serialised to text, readable by the host's parser.
    fn to_toml(&self) -> String;
}

/// The key a theme name is stored and resolved under: its lowercase form.
pub fn theme_key(name: &str) -> (r: String)
    ensures
        r@ == lowercase(name@),
{
    to_lower(name)
}

/// The registry's contents, as values: the listed names in display order,
/// the user files by lowercase name, the built-in names, and the user
/// directory.
pub struct RegistryView<P> {
    pub names: Seq<Seq<char>>,
    pub users: Map<Seq<char>, P>,
    pub builtins: Seq<Seq<char>>,
    pub user_dir: Option<P>,
}

/// The characters of each string.
pub open spec fn string_views(v: Seq<String>) -> Seq<Seq<char>> {
    v.map_values(|s: String| s@)
}

/// Whether some name in `names` equals `name` ignoring case.
pub open spec fn listed(names: Seq<Seq<char>>, name: Seq<char>) -> bool {
    exists|i: int| 0 <= i < names.len() && lowercase(#[trigger] names[i]) == lowercase(name)
}

/// Recording a user theme `name` stored at `path`: the name is listed unless
/// a name equal to it ignoring case already is, and its lowercase form now
/// resolves to `path` (replacing any earlier file of that name).
pub open spec fn register_spec<P>(v: RegistryView<P>, name: Seq<char>, path: P) -> RegistryView<P> {
    RegistryView {
        names: if listed(v.names, name) {
            v.names
        } else {
            v.names.push(name)
        },
        users: v.users.insert(lowercase(name), path),
        builtins: v.builtins,
        user_dir: v.user_dir,
    }
}

/// Registering each of `files` (a name and its path) in order.
pub open spec fn register_all<P>(v: RegistryView<P>, files: Seq<(String, P)>) -> RegistryView<P>
    decreases files.len(),
{
    if files.len() == 0 {
        v
    } else {
        register_all(register_spec(v, files[0].0@, files[0].1), files.drop_first())
    }
}

/// The names of `names` that do not equal `key` ignoring case.
pub open spec fn without_key(names: Seq<Seq<char>>, key: Seq<char>) -> Seq<Seq<char>> {
    names.filter(|n: Seq<char>| lowercase(n) != key)
}

/// Forgetting the user theme `name`: its file no longer resolves, and the
/// name drops out of the list unless it also names a built-in.
pub open spec fn forget_spec<P>(v: RegistryView<P>, name: Seq<char>) -> RegistryView<P> {
    RegistryView {
        names: if listed(v.builtins, name) {
            v.names
        } else {
            without_key(v.names, lowercase(name))
        },
        users: v.users.remove(lowercase(name)),
        builtins: v.builtins,
        user_dir: v.user_dir,
    }
}

/// The registry: listed names, built-ins, user files keyed by lowercase
/// name (each key once), and the user directory.
pub struct ThemeRegistry<P> {
    names: Vec<String>,
    user: Vec<(String, P)>,
    builtins: Vec<String>,
    user_dir: Option<P>,
}

impl<P> ThemeRegistry<P> {
    /// Each user key appears once.
    closed spec fn keys_unique(&self) -> bool {
        forall|i: int, j: int|
            0 <= i < j < self.user@.len() ==> #[trigger] self.user@[i].0@ != #[trigger] self.user@[j].0@
    }

    /// The registry's invariant: each user key appears once, and the
    /// contents keep [`view_ok`] (every built-in listed; names distinct
    /// ignoring case whenever the built-ins are).
    pub closed spec fn wf(&self) -> bool {
        &&& self.keys_unique()
        &&& view_ok(self.view())
    }

    /// What the invariant says of the contents, for callers: every built-in
    /// is listed, and names are distinct ignoring case whenever the built-ins
    /// are.
    pub proof fn lemma_wf_view_ok(&self)
        requires
            self.wf(),
        ensures
            view_ok(self.view()),
    {
    }

    /// The user files as a map from lowercase name to path.
    pub closed spec fn users_view(&self) -> Map<Seq<char>, P> {
        Map::new(
            |k: Seq<char>| exists|i: int| 0 <= i < self.user@.len() && #[trigger] self.user@[i].0@ == k,
            |k: Seq<char>|
                self.user@[choose|i: int| 0 <= i < self.user@.len() && #[trigger] self.user@[i].0@ == k].1,
        )
    }

    /// The registry's contents as values.
    pub closed spec fn view(&self) -> RegistryView<P> {
        RegistryView {
            names: string_views(self.names@),
            users: self.users_view(),
            builtins: string_views(self.builtins@),
            user_dir: self.user_dir,
        }
    }

    /// A registry over the `builtins` names and the user theme files the host
    /// found in `user_dir`, each given by its name (the file stem) and path,
    /// in the order they were found. The files given are registered whatever
    /// `user_dir` is; a host with no user directory (`None`, which disables
    /// saving, deleting and importing) finds no files and passes none.
    pub fn new(builtins: Vec<String>, user_files: Vec<(String, P)>, user_dir: Option<P>) -> (r: Self)
        ensures
            r.wf(),
            r.view() == register_all(
                RegistryView {
                    names: string_views(builtins@),
                    users: Map::empty(),
                    builtins: string_views(builtins@),
                    user_dir,
                },
                user_files@,
            ),
    {
        let names = builtins.clone();
        let mut r = ThemeRegistry { names, user: Vec::new(), builtins, user_dir };
        proof {
            assert(r.users_view() =~= Map::empty());
            assert(r.view() =~= RegistryView {
                names: string_views(r.builtins@),
                users: Map::empty(),
                builtins: string_views(r.builtins@),
                user_dir: r.user_dir,
            });
            let v = r.view();
            assert forall|i: int| 0 <= i < v.builtins.len() implies listed(
                v.names,
                #[trigger] v.builtins[i],
            ) by {
                assert(lowercase(v.names[i]) == lowercase(v.builtins[i]));
            }
            assert forall|i: int| 0 <= i < v.builtins.len() implies v.names.contains(
                #[trigger] v.builtins[i],
            ) by {
                assert(v.names[i] == v.builtins[i]);
            }
        }
        let ghost start = r.view();
        let ghost all = user_files@;
        let mut files = user_files;
        let ghost mut done: int = 0;
        while files.len() > 0
            invariant
                r.wf(),
                0 <= done <= all.len(),
                files@ == all.skip(done),
                register_all(start, all) == register_all(r.view(), files@),
            decreases files@.len(),
        {
            let (name, path) = files.remove(0);
            proof {
                assert(files@ =~= all.skip(done).drop_first());
                assert(all.skip(done).drop_first() =~= all.skip(done + 1));
                done = done + 1;
            }
            r.register(name.as_str(), path);
        }
        r
    }

    /// All theme names (built-in and user), for a picker.
    pub fn names(&self) -> (r: &[String])
        ensures
            string_views(r@) == self.view().names,
    {
        self.names.as_slice()
    }

    /// Whether `name` is a built-in (ignoring case) — built-ins are read-only.
    pub fn is_builtin(&self, name: &str) -> (r: bool)
        ensures
            r == listed(self.view().builtins, name@),
    {
        let key = to_lower(name);
        let mut i: usize = 0;
        while i < self.builtins.len()
            invariant
                i <= self.builtins@.len(),
                key@ == lowercase(name@),
                forall|j: int| 0 <= j < i ==> lowercase(#[trigger] self.builtins@[j]@) != lowercase(
                    name@,
                ),
                string_views(self.builtins@).len() == self.builtins@.len(),
            decreases self.builtins@.len() - i,
        {
            let lower = to_lower(self.builtins[i].as_str());
            if lower == key {
                proof {
                    assert(string_views(self.builtins@)[i as int] == self.builtins@[i as int]@);
                }
                return true;
            }
            i = i + 1;
        }
        false
    }

    /// The directory user themes live in (if any).
    pub fn user_dir(&self) -> (r: Option<&P>)
        ensures
            match self.view().user_dir {
                None => r is None,
                Some(d) => r matches Some(p) && *p == d,
            },
    {
        match &self.user_dir {
            None => None,
            Some(d) => Some(d),
        }
    }

    /// Where the user key `key` sits in the user table, if anywhere.
    fn find_user(&self, key: &String) -> (r: Option<usize>)
        requires
            self.keys_unique(),
        ensures
            match r {
                None => !self.users_view().dom().contains(key@),
                Some(i) => i < self.user@.len() && self.user@[i as int].0@ == key@,
            },
    {
        let mut i: usize = 0;
        while i < self.user.len()
            invariant
                i <= self.user@.len(),
                forall|j: int| 0 <= j < i ==> (#[trigger] self.user@[j]).0@ != key@,
            decreases self.user@.len() - i,
        {
            if self.user[i].0 == *key {
                return Some(i);
            }
            i = i + 1;
        }
        None
    }

    /// The user file `name` resolves to (ignoring case), if any. A user file
    /// overrides a built-in of the same name; the host reads and parses it.
    pub fn user_path(&self, name: &str) -> (r: Option<&P>)
        requires
            self.wf(),
        ensures
            match self.view().users.dom().contains(lowercase(name@)) {
                false => r is None,
                true => r matches Some(p) && *p == self.view().users[lowercase(name@)],
            },
    {
        let key = to_lower(name);
        match self.find_user(&key) {
            None => None,
            Some(i) => {
                proof {
                    assert(self.users_view().dom().contains(key@));
                    let c = choose|j: int|
                        0 <= j < self.user@.len() && #[trigger] self.user@[j].0@ == key@;
                    assert(c == i as int);
                }
                Some(&self.user[i].1)
            },
        }
    }

    /// Whether some listed name equals `key` (already lowercase) ignoring case.
    fn names_contain_key(&self, key: &String) -> (r: bool)
        ensures
            r == (exists|i: int|
                0 <= i < self.names@.len() && lowercase(#[trigger] self.names@[i]@) == key@),
    {
        let mut i: usize = 0;
        while i < self.names.len()
            invariant
                i <= self.names@.len(),
                forall|j: int| 0 <= j < i ==> lowercase(#[trigger] self.names@[j]@) != key@,
            decreases self.names@.len() - i,
        {
            let lower = to_lower(self.names[i].as_str());
            if lower == *key {
                return true;
            }
            i = i + 1;
        }
        false
    }

    /// Record a user theme `name` stored at `path` (idempotent on the name):
    /// the name is listed unless one equal to it ignoring case already is, and
    /// it now resolves to `path`.
    pub fn register(&mut self, name: &str, path: P)
        requires
            old(self).wf(),
        ensures
            final(self).wf(),
            final(self).view() == register_spec(old(self).view(), name@, path),
    {
        let key = to_lower(name);
        let ghost old_view = self.view();
        let ghost gpath = path;
        if !self.names_contain_key(&key) {
            self.names.push(name.to_owned());
            proof {
                assert(string_views(self.names@) =~= old_view.names.push(name@));
            }
        } else {
            proof {
                let i = choose|i: int|
                    0 <= i < self.names@.len() && lowercase(#[trigger] self.names@[i]@) == key@;
                assert(string_views(self.names@)[i] == self.names@[i]@);
            }
        }
        let ghost old_user = self.user@;
        match self.find_user(&key) {
            Some(i) => {
                self.user.set(i, (key, path));
                proof {
                    assert forall|a: int, b: int|
                        0 <= a < b < self.user@.len() implies #[trigger] self.user@[a].0@
                        != #[trigger] self.user@[b].0@ by {
                        assert(old_user[a].0@ != old_user[b].0@ || a == b);
                    }
                }
            },
            None => {
                self.user.push((key, path));
            },
        }
        proof {
            assert(self.users_view() =~= old_view.users.insert(lowercase(name@), path)) by {
                assert forall|k: Seq<char>| #[trigger] self.users_view().dom().contains(k)
                    == old_view.users.insert(lowercase(name@), path).dom().contains(k) by {
                    if k != lowercase(name@) {
                        if old_view.users.dom().contains(k) {
                            let j = choose|j: int|
                                0 <= j < old_user.len() && #[trigger] old_user[j].0@ == k;
                            assert(self.user@[j].0@ == k);
                        }
                        if self.users_view().dom().contains(k) {
                            let j = choose|j: int|
                                0 <= j < self.user@.len() && #[trigger] self.user@[j].0@ == k;
                            assert(old_user[j].0@ == k);
                        }
                    } else {
                        let j = if self.user@.len() > old_user.len() {
                            old_user.len() as int
                        } else {
                            choose|j: int| 0 <= j < old_user.len() && #[trigger] old_user[j].0@ == k
                        };
                        assert(self.user@[j].0@ == k);
                    }
                }
                assert forall|k: Seq<char>| #[trigger] self.users_view().dom().contains(k) implies
                    self.users_view()[k] == old_view.users.insert(lowercase(name@), path)[k] by {
                    let j = choose|j: int|
                        0 <= j < self.user@.len() && #[trigger] self.user@[j].0@ == k;
                    if k != lowercase(name@) {
                        assert(old_user[j].0@ == k);
                        assert(old_view.users.dom().contains(k));
                        let j2 = choose|j2: int|
                            0 <= j2 < old_user.len() && #[trigger] old_user[j2].0@ == k;
                        assert(j == j2);
                    }
                }
            }
        }
        proof {
            law_register_keeps_view_ok(old_view, name@, gpath);
        }
    }

    /// Forget the user theme `name` (after its file was deleted): it no
    /// longer resolves to a file, and it drops out of the list unless it also
    /// names a built-in, which remains.
    pub fn forget(&mut self, name: &str)
        requires
            old(self).wf(),
        ensures
            final(self).wf(),
            final(self).view() == forget_spec(old(self).view(), name@),
    {
        let key = to_lower(name);
        let ghost old_view = self.view();
        let ghost old_user = self.user@;
        match self.find_user(&key) {
            Some(i) => {
                self.user.remove(i);
                proof {
                    assert(self.users_view() =~= old_view.users.remove(key@)) by {
                        assert forall|k: Seq<char>| #[trigger] self.users_view().dom().contains(k)
                            == old_view.users.remove(key@).dom().contains(k) by {
                            if self.users_view().dom().contains(k) {
                                let j = choose|j: int|
                                    0 <= j < self.user@.len() && #[trigger] self.user@[j].0@ == k;
                                if j < i {
                                    assert(old_user[j].0@ == k);
                                } else {
                                    assert(old_user[j + 1].0@ == k);
                                }
                            }
                            if old_view.users.remove(key@).dom().contains(k) {
                                let j = choose|j: int|
                                    0 <= j < old_user.len() && #[trigger] old_user[j].0@ == k;
                                if j < i {
                                    assert(self.user@[j].0@ == k);
                                } else {
                                    assert(j != i);
                                    assert(self.user@[j - 1].0@ == k);
                                }
                            }
                        }
                        assert forall|k: Seq<char>| #[trigger] self.users_view().dom().contains(k)
                            implies self.users_view()[k] == old_view.users.remove(key@)[k] by {
                            let j = choose|j: int|
                                0 <= j < self.user@.len() && #[trigger] self.user@[j].0@ == k;
                            let oj = if j < i {
                                j
                            } else {
                                j + 1
                            };
                            assert(old_user[oj].0@ == k);
                            let j2 = choose|j2: int|
                                0 <= j2 < old_user.len() && #[trigger] old_user[j2].0@ == k;
                            assert(oj == j2);
                        }
                    }
                }
            },
            None => {
                proof {
                    assert(self.users_view() =~= old_view.users.remove(key@));
                }
            },
        }
        let ghost user_now = self.user@;
        let ghost builtins_now = self.builtins@;
        if !self.is_builtin(name) {
            let ghost orig = string_views(self.names@);
            let ghost mut done: int = 0;
            let mut i: usize = 0;
            proof {
                reveal_with_fuel(Seq::<_>::filter, 1);
                assert(orig.take(0) =~= Seq::<Seq<char>>::empty());
                assert(without_key(orig.take(0), key@) =~= Seq::<Seq<char>>::empty());
                assert(orig.skip(0) =~= orig);
            }
            while i < self.names.len()
                invariant
                    0 <= done <= orig.len(),
                    string_views(self.names@) == without_key(orig.take(done), key@) + orig.skip(done),
                    i == without_key(orig.take(done), key@).len(),
                    key@ == lowercase(name@),
                    self.user@ == user_now,
                    self.builtins@ == builtins_now,
                    self.user_dir == old(self).user_dir,
                    orig == old_view.names,
                decreases orig.len() - done,
            {
                proof {
                    reveal_with_fuel(Seq::<_>::filter, 1);
                    assert(orig.take(done + 1).drop_last() =~= orig.take(done));
                    assert(string_views(self.names@)[i as int] == orig[done]);
                }
                let lower = to_lower(self.names[i].as_str());
                if lower == key {
                    let ghost before = string_views(self.names@);
                    self.names.remove(i);
                    proof {
                        assert(orig.take(done + 1).last() == orig[done]);
                        assert(without_key(orig.take(done + 1), key@) == without_key(
                            orig.take(done),
                            key@,
                        ));
                        assert(string_views(self.names@) =~= before.remove(i as int));
                        assert(orig.skip(done) =~= seq![orig[done]] + orig.skip(done + 1));
                        assert(string_views(self.names@) =~= without_key(orig.take(done + 1), key@)
                            + orig.skip(done + 1));
                    }
                } else {
                    i = i + 1;
                    proof {
                        assert(orig.take(done + 1).last() == orig[done]);
                        assert(without_key(orig.take(done + 1), key@) == without_key(
                            orig.take(done),
                            key@,
                        ).push(orig[done]));
                        assert(orig.skip(done) =~= seq![orig[done]] + orig.skip(done + 1));
                        assert(string_views(self.names@) =~= without_key(orig.take(done + 1), key@)
                            + orig.skip(done + 1));
                    }
                }
                proof {
                    done = done + 1;
                }
            }
            proof {
                assert(orig.take(orig.len() as int) =~= orig);
                assert(string_views(self.names@) =~= without_key(orig, key@));
            }
        }
        proof {
            law_forget_keeps_view_ok(old_view, name@);
        }
    }
}

/// A saved user theme is visible at once, with no reload: its name is listed
/// (ignoring case) and resolves to the file just saved.
pub proof fn law_register_then_resolve<P>(v: RegistryView<P>, name: Seq<char>, path: P)
    ensures
        listed(register_spec(v, name, path).names, name),
        register_spec(v, name, path).users.dom().contains(lowercase(name)),
        register_spec(v, name, path).users[lowercase(name)] == path,
{
    let r = register_spec(v, name, path);
    if !listed(v.names, name) {
        assert(r.names[v.names.len() as int] == name);
    }
}

/// Saving a theme whose name is already listed (such as a built-in's,
/// ignoring case) adds no second entry: the list is unchanged.
pub proof fn law_register_no_duplicate_name<P>(v: RegistryView<P>, name: Seq<char>, path: P)
    requires
        listed(v.names, name),
    ensures
        register_spec(v, name, path).names == v.names,
{
}

/// Deleting a user theme that overrides a built-in keeps the built-in: it is
/// still listed and no user file shadows it any more.
pub proof fn law_forget_keeps_builtin<P>(v: RegistryView<P>, name: Seq<char>)
    requires
        view_ok(v),
        listed(v.builtins, name),
    ensures
        listed(forget_spec(v, name).names, name),
        !forget_spec(v, name).users.dom().contains(lowercase(name)),
{
    let i = choose|i: int|
        0 <= i < v.builtins.len() && lowercase(#[trigger] v.builtins[i]) == lowercase(name);
    assert(listed(v.names, v.builtins[i]));
    let k = choose|k: int|
        0 <= k < v.names.len() && lowercase(#[trigger] v.names[k]) == lowercase(v.builtins[i]);
    assert(lowercase(v.names[k]) == lowercase(name));
}

/// Deleting a user theme that is not a built-in drops every listed name equal
/// to it ignoring case, and it no longer resolves.
pub proof fn law_forget_drops_user_theme<P>(v: RegistryView<P>, name: Seq<char>)
    requires
        !listed(v.builtins, name),
    ensures
        !listed(forget_spec(v, name).names, name),
        !forget_spec(v, name).users.dom().contains(lowercase(name)),
{
    let names = forget_spec(v, name).names;
    assert forall|i: int| 0 <= i < names.len() implies lowercase(#[trigger] names[i]) != lowercase(
        name,
    ) by {
        let pred = |n: Seq<char>| lowercase(n) != lowercase(name);
        v.names.lemma_filter_pred(pred, i);
    }
}

/// The extension a user theme file carries.
pub open spec fn toml_ext() -> Seq<char> {
    seq!['t', 'o', 'm', 'l']
}

/// The index of the last `.` in `s`, or -1 when there is none.
pub open spec fn last_dot(s: Seq<char>) -> int
    decreases s.len(),
{
    if s.len() == 0 {
        -1
    } else if s.last() == '.' {
        s.len() - 1
    } else {
        last_dot(s.drop_last())
    }
}

/// The theme name a file called `file_name` stands for: its stem, when its
/// extension is exactly `toml`. As for a path, the extension is what follows
/// the last `.`, and a name whose only `.` leads it (`.toml`) has none.
pub open spec fn toml_stem_spec(file_name: Seq<char>) -> Option<Seq<char>> {
    let k = last_dot(file_name);
    if k > 0 && file_name.skip(k + 1) == toml_ext() {
        Some(file_name.take(k))
    } else {
        None
    }
}

/// The theme name a user theme file called `file_name` stands for (see
/// [`toml_stem_spec`]); `None` for a file that is not a theme.
pub fn toml_stem(file_name: &str) -> (r: Option<String>)
    ensures
        match toml_stem_spec(file_name@) {
            None => r is None,
            Some(stem) => r matches Some(x) && x@ == stem,
        },
{
    let chars = collect_chars(file_name);
    let n = chars.len();
    let mut k: usize = n;
    proof {
        assert(chars@.take(n as int) =~= chars@);
    }
    while k > 0 && chars[k - 1] != '.'
        invariant
            k <= n == chars@.len(),
            last_dot(chars@) == last_dot(chars@.take(k as int)),
        decreases k,
    {
        proof {
            assert(chars@.take(k as int).drop_last() =~= chars@.take(k - 1));
        }
        k = k - 1;
    }
    proof {
        if k > 0 {
            assert(chars@.take(k as int).last() == chars@[k - 1]);
        }
    }
    // Here `k` is one past the last dot, or 0 when there is none.
    if k < 2 || n - k != 4 {
        proof {
            if k >= 2 {
                assert(chars@.skip(k as int).len() != 4);
            }
        }
        return None;
    }
    if chars[k] == 't' && chars[k + 1] == 'o' && chars[k + 2] == 'm' && chars[k + 3] == 'l' {
        proof {
            assert(chars@.skip(k as int) =~= toml_ext());
        }
        Some(string_of_chars(chars.as_slice(), k - 1))
    } else {
        proof {
            let tail = chars@.skip(k as int);
            assert(tail[0] == chars@[k as int] && tail[1] == chars@[k + 1]);
            assert(tail[2] == chars@[k + 2] && tail[3] == chars@[k + 3]);
            assert(tail != toml_ext());
        }
        None
    }
}

/// The file a user theme named `name` is saved as: `<name>.toml`.
pub fn toml_file_name(name: &str) -> (r: String)
    ensures
        r@ == name@ + seq!['.'] + toml_ext(),
{
    proof {
        reveal_strlit(".toml");
        assert(".toml"@ =~= seq!['.'] + toml_ext());
    }
    let r = join(name, ".toml");
    proof {
        assert(r@ =~= name@ + seq!['.'] + toml_ext());
    }
    r
}

/// A saved theme is found again under its name when the directory is next
/// scanned: the stem of `<name>.toml` is `name`, for every non-empty name.
pub proof fn law_saved_file_is_found_again(name: Seq<char>)
    requires
        name.len() > 0,
    ensures
        toml_stem_spec(name + seq!['.'] + toml_ext()) == Some(name),
{
    let f = name + seq!['.'] + toml_ext();
    let k = name.len() as int;
    assert(f[k] == '.');
    assert(f.drop_last().drop_last().drop_last().drop_last() =~= name + seq!['.']);
    assert(last_dot(name + seq!['.']) == k);
    reveal_with_fuel(last_dot, 5);
    assert(last_dot(f) == k);
    assert(f.skip(k + 1) =~= toml_ext());
    assert(f.take(k) =~= name);
}

/// No two names are equal ignoring case.
pub open spec fn distinct_ignoring_case(names: Seq<Seq<char>>) -> bool {
    forall|i: int, j: int|
        0 <= i < j < names.len() ==> lowercase(#[trigger] names[i]) != lowercase(#[trigger] names[j])
}

/// The registry's contents are consistent: every built-in is listed as it
/// is written, and when the built-ins are distinct ignoring case, so are the
/// listed names (a saved override of a built-in adds no second entry).
pub open spec fn view_ok<P>(v: RegistryView<P>) -> bool {
    &&& forall|i: int| 0 <= i < v.builtins.len() ==> v.names.contains(#[trigger] v.builtins[i])
    &&& forall|i: int| 0 <= i < v.builtins.len() ==> listed(v.names, #[trigger] v.builtins[i])
    &&& distinct_ignoring_case(v.builtins) ==> distinct_ignoring_case(v.names)
}

/// Registering a user theme keeps the contents consistent.
pub proof fn law_register_keeps_view_ok<P>(v: RegistryView<P>, name: Seq<char>, path: P)
    requires
        view_ok(v),
    ensures
        view_ok(register_spec(v, name, path)),
{
    let r = register_spec(v, name, path);
    if !listed(v.names, name) {
        assert forall|i: int| 0 <= i < r.builtins.len() implies listed(
            r.names,
            #[trigger] r.builtins[i],
        ) by {
            assert(listed(v.names, v.builtins[i]));
            let k = choose|k: int|
                0 <= k < v.names.len() && lowercase(#[trigger] v.names[k]) == lowercase(
                    v.builtins[i],
                );
            assert(r.names[k] == v.names[k]);
        }
        assert forall|i: int| 0 <= i < r.builtins.len() implies r.names.contains(
            #[trigger] r.builtins[i],
        ) by {
            assert(v.names.contains(v.builtins[i]));
            let k = choose|k: int| 0 <= k < v.names.len() && v.names[k] == v.builtins[i];
            assert(r.names[k] == v.names[k]);
        }
        if distinct_ignoring_case(r.builtins) {
            assert forall|i: int, j: int|
                0 <= i < j < r.names.len() implies lowercase(#[trigger] r.names[i]) != lowercase(
                #[trigger] r.names[j],
            ) by {
                if j == v.names.len() {
                    assert(r.names[j] == name);
                    assert(r.names[i] == v.names[i]);
                } else {
                    assert(r.names[i] == v.names[i] && r.names[j] == v.names[j]);
                }
            }
        }
    }
}

/// Keeping only the names whose lowercase form is not `key` keeps them
/// distinct ignoring case.
proof fn lemma_without_key_distinct(names: Seq<Seq<char>>, key: Seq<char>)
    requires
        distinct_ignoring_case(names),
    ensures
        distinct_ignoring_case(without_key(names, key)),
    decreases names.len(),
{
    reveal_with_fuel(Seq::<_>::filter, 1);
    let pred = |n: Seq<char>| lowercase(n) != key;
    if names.len() > 0 {
        let rest = names.drop_last();
        assert(distinct_ignoring_case(rest)) by {
            assert forall|i: int, j: int|
                0 <= i < j < rest.len() implies lowercase(#[trigger] rest[i]) != lowercase(
                #[trigger] rest[j],
            ) by {
                assert(rest[i] == names[i] && rest[j] == names[j]);
            }
        }
        lemma_without_key_distinct(rest, key);
        let sub = rest.filter(pred);
        assert(without_key(rest, key) == sub);
        if pred(names.last()) {
            let out = sub.push(names.last());
            assert(without_key(names, key) == out);
            assert forall|i: int, j: int|
                0 <= i < j < out.len() implies lowercase(#[trigger] out[i]) != lowercase(
                #[trigger] out[j],
            ) by {
                if j == sub.len() {
                    assert(out[i] == sub[i]);
                    assert(sub.contains(sub[i]));
                    rest.lemma_filter_contains_rev(pred, sub[i]);
                    let k = choose|k: int| 0 <= k < rest.len() && rest[k] == sub[i];
                    assert(names[k] == rest[k]);
                    assert(out[j] == names[names.len() - 1]);
                } else {
                    assert(out[i] == sub[i] && out[j] == sub[j]);
                }
            }
        } else {
            assert(without_key(names, key) == sub);
        }
    }
}

/// Forgetting a user theme keeps the contents consistent: in particular a
/// built-in stays listed after the user file overriding it is deleted.
pub proof fn law_forget_keeps_view_ok<P>(v: RegistryView<P>, name: Seq<char>)
    requires
        view_ok(v),
    ensures
        view_ok(forget_spec(v, name)),
{
    let r = forget_spec(v, name);
    if !listed(v.builtins, name) {
        let key = lowercase(name);
        let pred = |n: Seq<char>| lowercase(n) != key;
        assert forall|i: int| 0 <= i < r.builtins.len() implies listed(
            r.names,
            #[trigger] r.builtins[i],
        ) by {
            let b = v.builtins[i];
            assert(listed(v.names, b));
            let k = choose|k: int|
                0 <= k < v.names.len() && lowercase(#[trigger] v.names[k]) == lowercase(b);
            assert(lowercase(b) != key);
            assert(pred(v.names[k]));
            v.names.lemma_filter_contains(pred, k);
            let j = choose|j: int| 0 <= j < r.names.len() && r.names[j] == v.names[k];
            assert(lowercase(r.names[j]) == lowercase(b));
        }
        assert forall|i: int| 0 <= i < r.builtins.len() implies r.names.contains(
            #[trigger] r.builtins[i],
        ) by {
            let b = v.builtins[i];
            assert(v.names.contains(b));
            let k = choose|k: int| 0 <= k < v.names.len() && v.names[k] == b;
            assert(lowercase(b) != key);
            assert(pred(v.names[k]));
            v.names.lemma_filter_contains(pred, k);
        }
        if distinct_ignoring_case(r.builtins) {
            lemma_without_key_distinct(v.names, key);
        }
    }
}

/// Forgetting a theme touches only its own file: its key no longer
/// resolves, every other user file resolves exactly as before, and the
/// built-ins and user directory are unchanged.
pub proof fn law_forget_keeps_other_user_files<P>(v: RegistryView<P>, name: Seq<char>, k: Seq<char>)
    ensures
        !forget_spec(v, name).users.dom().contains(lowercase(name)),
        k != lowercase(name) ==> (forget_spec(v, name).users.dom().contains(k)
            == v.users.dom().contains(k)),
        (k != lowercase(name) && v.users.dom().contains(k)) ==> forget_spec(v, name).users[k]
            == v.users[k],
        forget_spec(v, name).builtins == v.builtins,
        forget_spec(v, name).user_dir == v.user_dir,
{
}

/// Registering a theme touches only its own key: its key resolves to the
/// new path, every other user file resolves exactly as before, no listed
/// name is lost, and the built-ins and user directory are unchanged.
pub proof fn law_register_keeps_other_user_files<P>(
    v: RegistryView<P>,
    name: Seq<char>,
    path: P,
    k: Seq<char>,
)
    ensures
        register_spec(v, name, path).users.dom().contains(lowercase(name)),
        register_spec(v, name, path).users[lowercase(name)] == path,
        k != lowercase(name) ==> (register_spec(v, name, path).users.dom().contains(k)
            == v.users.dom().contains(k)),
        (k != lowercase(name) && v.users.dom().contains(k)) ==> register_spec(v, name, path).users[k]
            == v.users[k],
        forall|i: int| 0 <= i < v.names.len() ==> register_spec(v, name, path).names.contains(
            #[trigger] v.names[i],
        ),
        register_spec(v, name, path).builtins == v.builtins,
        register_spec(v, name, path).user_dir == v.user_dir,
{
    let r = register_spec(v, name, path);
    assert forall|i: int| 0 <= i < v.names.len() implies r.names.contains(#[trigger] v.names[i]) by {
        if !listed(v.names, name) {
            assert(r.names[i] == v.names[i]);
        }
    }
}

/// A file names a theme only when it is that name followed by `.toml`, and
/// the name is not empty: the stem and the extension give back the file
/// name.
pub proof fn law_toml_stem_splits_the_name(file_name: Seq<char>)
    ensures
        toml_stem_spec(file_name) matches Some(stem) ==> (stem.len() > 0 && file_name == stem
            + seq!['.', 't', 'o', 'm', 'l']),
        (file_name.len() < 6 || file_name.skip(file_name.len() - 5) != seq!['.', 't', 'o', 'm', 'l'])
            ==> toml_stem_spec(file_name) is None,
{
    let k = last_dot(file_name);
    lemma_last_dot_bounds(file_name);
    if k > 0 && file_name.skip(k + 1) == toml_ext() {
        let t = file_name.skip(k + 1);
        let rhs = file_name.take(k) + seq!['.', 't', 'o', 'm', 'l'];
        assert(t.len() == 4);
        assert(file_name.len() == k + 5);
        assert(file_name[k + 1] == t[0] && file_name[k + 2] == t[1]);
        assert(file_name[k + 3] == t[2] && file_name[k + 4] == t[3]);
        assert(t[0] == 't' && t[1] == 'o' && t[2] == 'm' && t[3] == 'l');
        assert forall|i: int| 0 <= i < file_name.len() implies file_name[i] == rhs[i] by {
            if i < k {
                assert(rhs[i] == file_name.take(k)[i]);
            } else if i == k {
                assert(rhs[i] == '.');
            }
        }
        assert(file_name =~= rhs);
        assert(file_name.skip(file_name.len() - 5) =~= seq!['.', 't', 'o', 'm', 'l']);
    }
}

/// [`last_dot`] is -1 or the index of a `.` within the text.
proof fn lemma_last_dot_bounds(s: Seq<char>)
    ensures
        -1 <= last_dot(s) < s.len(),
        last_dot(s) >= 0 ==> s[last_dot(s)] == '.',
    decreases s.len(),
{
    if s.len() > 0 && s.last() != '.' {
        lemma_last_dot_bounds(s.drop_last());
    }
}

} // verus!
