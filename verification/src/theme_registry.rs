//! The registry of themes: the built-in ones and those registered at run
//! time, looked up by id or by name.
//!
//! A theme's colors are no concern of the registry: it keeps each theme
//! with the id and the name it is found by, and hands the theme back.

use vstd::prelude::*;

verus! {

/// A registered theme with the id and the name it is found by.
pub struct RegisteredTheme<T> {
    pub id: String,
    pub name: String,
    pub theme: T,
}

/// Whether `entry` is found by `key`: its id or its name is `key`.
pub open spec fn answers_to<T>(entry: RegisteredTheme<T>, key: Seq<char>) -> bool {
    entry.id@ == key || entry.name@ == key
}

/// The first theme found by `key`.
pub open spec fn find_theme<T>(entries: Seq<RegisteredTheme<T>>, key: Seq<char>) -> Option<T>
    decreases entries.len(),
{
    if entries.len() == 0 {
        None
    } else if answers_to(entries[0], key) {
        Some(entries[0].theme)
    } else {
        find_theme(entries.drop_first(), key)
    }
}

/// The entries after a family was loaded: each theme in turn is added
/// unless a theme registered before it (of the registry or of the family)
/// is already found by its id.
pub open spec fn load_family<T>(entries: Seq<RegisteredTheme<T>>, family: Seq<RegisteredTheme<T>>) -> Seq<
    RegisteredTheme<T>,
>
    decreases family.len(),
{
    if family.len() == 0 {
        entries
    } else {
        let next = if find_theme(entries, family[0].id@) is None {
            entries.push(family[0])
        } else {
            entries
        };
        load_family(next, family.drop_first())
    }
}

/// Themes: the built-in ones and those added at run time.
pub struct ThemeRegistry<T> {
    themes: Vec<RegisteredTheme<T>>,
}

impl<T> View for ThemeRegistry<T> {
    type V = Seq<RegisteredTheme<T>>;

    closed spec fn view(&self) -> Seq<RegisteredTheme<T>> {
        self.themes@
    }
}

impl<T> ThemeRegistry<T> {
    /// An empty registry.
    pub fn new() -> (r: Self)
        ensures
            r@ == Seq::<RegisteredTheme<T>>::empty(),
    {
        ThemeRegistry { themes: Vec::new() }
    }

    /// Registers a theme (after those registered before it).
    pub fn insert(&mut self, id: String, name: String, theme: T)
        ensures
            final(self)@ == old(self)@.push(RegisteredTheme { id, name, theme }),
    {
        self.themes.push(RegisteredTheme { id, name, theme });
    }

    /// Registers the themes of a family, in order, skipping each one whose
    /// id already finds a theme: when two files of one family repeat a
    /// theme, the one registered first wins.
    pub fn load_theme_family(&mut self, family: Vec<RegisteredTheme<T>>)
        ensures
            final(self)@ == load_family(old(self)@, family@),
    {
        let ghost all = family@;
        let mut rest = family;
        assert(all.skip(0) =~= all);
        while rest.len() > 0
            invariant
                rest@ == all.skip(all.len() - rest@.len()),
                rest@.len() <= all.len(),
                load_family(old(self)@, all) == load_family(self@, rest@),
            decreases rest@.len(),
        {
            let ghost before = rest@;
            let entry = rest.remove(0);
            proof {
                assert(before[0] == entry);
                assert(before.drop_first() =~= rest@);
                assert(rest@ =~= all.skip(all.len() - rest@.len()));
            }
            let known = self.get(entry.id.as_str()).is_some();
            if !known {
                self.themes.push(entry);
            }
        }
    }

    /// The first theme whose id or name is `id_or_name`.
    pub fn get(&self, id_or_name: &str) -> (r: Option<&T>)
        ensures
            match r {
                Some(t) => find_theme(self@, id_or_name@) == Some(*t),
                None => find_theme(self@, id_or_name@) is None,
            },
    {
        let key = id_or_name.to_owned();
        let mut i: usize = 0;
        assert(self.themes@.skip(0) =~= self.themes@);
        while i < self.themes.len()
            invariant
                i <= self.themes@.len(),
                key@ == id_or_name@,
                find_theme(self@, id_or_name@) == find_theme(self.themes@.skip(i as int), id_or_name@),
            decreases self.themes@.len() - i,
        {
            proof {
                assert(self.themes@.skip(i as int)[0] == self.themes@[i as int]);
                assert(self.themes@.skip(i as int).drop_first() =~= self.themes@.skip(i + 1));
            }
            let entry = &self.themes[i];
            if entry.id == key || entry.name == key {
                return Some(&entry.theme);
            }
            i = i + 1;
        }
        proof {
            assert(self.themes@.skip(i as int) =~= Seq::<RegisteredTheme<T>>::empty());
        }
        None
    }

    /// All themes, in the order they were registered.
    pub fn themes(&self) -> (r: &Vec<RegisteredTheme<T>>)
        ensures
            r@ == self@,
    {
        &self.themes
    }
}

/// The registry as the application-wide value that components read.
pub struct GlobalThemeRegistry<T>(pub ThemeRegistry<T>);

/// A theme that was just inserted is found by its id, unless a theme
/// registered before it is found by that id too.
pub proof fn lemma_insert_then_get<T>(entries: Seq<RegisteredTheme<T>>, entry: RegisteredTheme<T>)
    requires
        find_theme(entries, entry.id@) is None,
    ensures
        find_theme(entries.push(entry), entry.id@) == Some(entry.theme),
    decreases entries.len(),
{
    if entries.len() > 0 {
        assert(entries.push(entry).drop_first() =~= entries.drop_first().push(entry));
        lemma_insert_then_get(entries.drop_first(), entry);
    } else {
        assert(entries.push(entry)[0] == entry);
    }
}

/// Loading a family never drops a theme that was there: what a key found
/// before, it finds after.
pub proof fn lemma_load_keeps_found<T>(
    entries: Seq<RegisteredTheme<T>>,
    family: Seq<RegisteredTheme<T>>,
    key: Seq<char>,
)
    requires
        find_theme(entries, key) is Some,
    ensures
        find_theme(load_family(entries, family), key) == find_theme(entries, key),
    decreases family.len(),
{
    if family.len() > 0 {
        let next = if find_theme(entries, family[0].id@) is None {
            entries.push(family[0])
        } else {
            entries
        };
        lemma_push_keeps_found(entries, family[0], key);
        lemma_load_keeps_found(next, family.drop_first(), key);
    }
}

/// Adding a theme at the end does not change what an earlier theme answers.
proof fn lemma_push_keeps_found<T>(entries: Seq<RegisteredTheme<T>>, entry: RegisteredTheme<T>, key: Seq<char>)
    requires
        find_theme(entries, key) is Some,
    ensures
        find_theme(entries.push(entry), key) == find_theme(entries, key),
    decreases entries.len(),
{
    if entries.len() > 0 && !answers_to(entries[0], key) {
        assert(entries.push(entry).drop_first() =~= entries.drop_first().push(entry));
        lemma_push_keeps_found(entries.drop_first(), entry, key);
    }
}

} // verus!
