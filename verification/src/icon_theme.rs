//! Icon themes: which icon a file or a directory of a file tree gets.
//!
//! Lookups go from the specific to the general: a file's full name
//! (`Dockerfile`, `Cargo.lock`) first, then its extension (the part after
//! the last dot, so `backup.tar.gz` is looked up as `gz`); a directory's
//! name first, then the generic folder icons. Names and extensions lead to
//! an icon key, and the key to the icon's path, so that several names can
//! share one icon.
//!
//! The maps of a theme are lists of `(key, value)` pairs in which no key
//! occurs twice (they are read from JSON objects): building a theme requires
//! it of the theme file, and the theme keeps it (`keys_unique`).

use vstd::prelude::*;
use vstd::utf8::*;

use crate::appearance::{Appearance, AppearanceContent};
use crate::rope::lemma_encode_append;

verus! {

/// The value stored under `key`: that of the first pair with that key.
pub open spec fn lookup<V>(pairs: Seq<(String, V)>, key: Seq<char>) -> Option<V>
    decreases pairs.len(),
{
    if pairs.len() == 0 {
        None
    } else if pairs[0].0@ == key {
        Some(pairs[0].1)
    } else {
        lookup(pairs.drop_first(), key)
    }
}

/// No key occurs twice.
pub open spec fn keys_distinct<V>(pairs: Seq<(String, V)>) -> bool {
    forall|i: int, j: int| 0 <= i < j < pairs.len() ==> pairs[i].0@ != pairs[j].0@
}

/// The position of the last `.` in a name.
pub open spec fn last_dot(s: Seq<char>) -> Option<int>
    decreases s.len(),
{
    if s.len() == 0 {
        None
    } else if s.last() == '.' {
        Some(s.len() - 1)
    } else {
        last_dot(s.drop_last())
    }
}

/// The extension of a file name: what follows its last dot.
pub open spec fn extension(name: Seq<char>) -> Option<Seq<char>> {
    match last_dot(name) {
        Some(i) => Some(name.skip(i + 1)),
        None => None,
    }
}

/// The byte of a dot.
pub const DOT: u8 = 0x2Eu8;

/// The position of the last dot's byte in the bytes of a name.
pub open spec fn last_dot_byte(b: Seq<u8>) -> Option<int>
    decreases b.len(),
{
    if b.len() == 0 {
        None
    } else if b.last() == DOT {
        Some(b.len() - 1)
    } else {
        last_dot_byte(b.drop_last())
    }
}

/// The last dot's byte lies within the bytes, and is a dot's byte.
proof fn lemma_last_dot_byte_range(b: Seq<u8>)
    ensures
        match last_dot_byte(b) {
            Some(k) => 0 <= k < b.len() && b[k] == DOT,
            None => true,
        },
    decreases b.len(),
{
    if b.len() > 0 && b.last() != DOT {
        lemma_last_dot_byte_range(b.drop_last());
    }
}

/// Bytes without a dot after `a` leave its last dot where it was.
proof fn lemma_last_dot_byte_append(a: Seq<u8>, b: Seq<u8>)
    requires
        forall|k: int| 0 <= k < b.len() ==> b[k] != DOT,
    ensures
        last_dot_byte(a + b) == last_dot_byte(a),
    decreases b.len(),
{
    if b.len() == 0 {
        assert(a + b =~= a);
    } else {
        assert((a + b).drop_last() =~= a + b.drop_last());
        lemma_last_dot_byte_append(a, b.drop_last());
    }
}

/// Only a dot's encoding holds a dot's byte, and it is that byte alone.
proof fn lemma_encode_scalar_dot(c: char)
    ensures
        c == '.' ==> encode_scalar(c as u32) == seq![DOT],
        c != '.' ==> forall|k: int| 0 <= k < encode_scalar(c as u32).len() ==> #[trigger] encode_scalar(c as u32)[k] != DOT,
{
    let v = c as u32;
    assert(forall|y: u8| (0x80u8 | y) != 0x2Eu8 && (0xC0u8 | y) != 0x2Eu8 && (0xE0u8 | y) != 0x2Eu8
        && (0xF0u8 | y) != 0x2Eu8) by (bit_vector);
    if c == '.' {
        assert(0x2Eu32 & 0x7Fu32 == 0x2Eu32) by (bit_vector);
        assert(encode_scalar(v) =~= seq![DOT]);
    } else if has_width_1_encoding(v) {
        assert(v <= 0x7F ==> v & 0x7Fu32 == v) by (bit_vector);
    }
}

/// The last dot of a name is, in its bytes, the last dot's byte, with the
/// bytes of the parts before and after it on either side.
proof fn lemma_last_dot_bytes(chars: Seq<char>)
    ensures
        match last_dot(chars) {
            Some(i) => {
                let k = encode_utf8(chars.take(i)).len() as int;
                &&& 0 <= i < chars.len()
                &&& last_dot_byte(encode_utf8(chars)) == Some(k)
                &&& encode_utf8(chars).take(k) == encode_utf8(chars.take(i))
                &&& encode_utf8(chars).skip(k + 1) == encode_utf8(chars.skip(i + 1))
            },
            None => last_dot_byte(encode_utf8(chars)) is None,
        },
    decreases chars.len(),
{
    if chars.len() == 0 {
        assert(encode_utf8(chars) =~= Seq::<u8>::empty());
    } else {
        let p = chars.drop_last();
        let c = chars.last();
        assert(chars =~= p + seq![c]);
        lemma_encode_append(p, seq![c]);
        assert(seq![c].drop_first() =~= Seq::<char>::empty());
        assert(seq![c][0] == c);
        assert(encode_utf8(Seq::<char>::empty()) =~= Seq::<u8>::empty());
        assert(encode_utf8(seq![c]) =~= encode_scalar(c as u32) + encode_utf8(Seq::<char>::empty()));
        assert(encode_utf8(seq![c]) =~= encode_scalar(c as u32));
        lemma_encode_scalar_dot(c);
        lemma_last_dot_bytes(p);
        let bp = encode_utf8(p);
        let bs = encode_utf8(chars);
        assert(bs == bp + encode_scalar(c as u32));
        if c == '.' {
            assert(chars.take(p.len() as int) =~= p);
            assert(chars.skip(p.len() as int + 1) =~= Seq::<char>::empty());
            assert(bs.take(bp.len() as int) =~= bp);
            assert(bs.skip(bp.len() as int + 1) =~= Seq::<u8>::empty());
        } else {
            lemma_last_dot_byte_append(bp, encode_scalar(c as u32));
            lemma_last_dot_byte_range(bp);
            match last_dot(p) {
                Some(i) => {
                    let k = encode_utf8(p.take(i)).len() as int;
                    assert(chars.take(i) =~= p.take(i));
                    assert(chars.skip(i + 1) =~= p.skip(i + 1) + seq![c]);
                    lemma_encode_append(p.skip(i + 1), seq![c]);
                    assert(bs.take(k) =~= bp.take(k));
                    assert(bs.skip(k + 1) =~= bp.skip(k + 1) + encode_scalar(c as u32));
                },
                None => {},
            }
        }
    }
}

/// The byte position of the last dot in `bytes`, by a scan from the end.
fn find_last_dot(bytes: &[u8]) -> (r: Option<usize>)
    ensures
        match last_dot_byte(bytes@) {
            Some(k) => r is Some && r->Some_0 == k,
            None => r is None,
        },
        match r {
            Some(k) => k < bytes@.len() && bytes@[k as int] == DOT,
            None => true,
        },
{
    proof {
        assert(bytes@.take(bytes@.len() as int) =~= bytes@);
    }
    let mut i: usize = bytes.len();
    while i > 0
        invariant
            i <= bytes@.len(),
            last_dot_byte(bytes@) == last_dot_byte(bytes@.take(i as int)),
        decreases i,
    {
        let ghost prefix = bytes@.take(i as int);
        if bytes[i - 1] == DOT {
            return Some(i - 1);
        }
        proof {
            assert(prefix.drop_last() =~= bytes@.take(i - 1));
        }
        i = i - 1;
    }
    None
}

/// The parts of a name before and after its last dot; `None` when it has
/// no dot.
fn split_at_last_dot(s: &str) -> (r: Option<(&str, &str)>)
    ensures
        match last_dot(s@) {
            Some(i) => r matches Some((a, b)) && a@ == s@.take(i) && b@ == s@.skip(i + 1),
            None => r is None,
        },
{
    let bytes = s.as_bytes();
    proof {
        lemma_last_dot_bytes(s@);
    }
    match find_last_dot(bytes) {
        Some(k) => {
            let ghost bs = encode_utf8(s@);
            proof {
                encode_utf8_valid_utf8(s@);
                is_char_boundary_iff_not_is_continuation_byte(bs, k as int);
            }
            let (before, rest) = s.split_at(k);
            proof {
                valid_utf8_split(bs, k as int);
                let rb = bs.subrange(k as int, bs.len() as int);
                assert(rb[0] == DOT);
                assert(length_of_first_scalar(rb) == 1);
                reveal_with_fuel(is_char_boundary, 2);
                assert(is_char_boundary(rb, 1));
            }
            let (_, after) = rest.split_at(1);
            proof {
                assert(bytes@ == bs);
                lemma_last_dot_byte_range(bs);
                assert(last_dot_byte(bs) == Some(k as int));
                assert(last_dot(s@) is Some);
                let i = last_dot(s@)->Some_0;
                assert(bytes@ == bs);
                assert(encode_utf8(before@) =~= bs.subrange(0, k as int));
                assert(bs.take(k as int) == encode_utf8(s@.take(i)));
                assert(encode_utf8(before@) == encode_utf8(s@.take(i)));
                assert(encode_utf8(after@) =~= bs.skip(k + 1));
                encode_utf8_decode_utf8(before@);
                encode_utf8_decode_utf8(after@);
                encode_utf8_decode_utf8(s@.take(i));
                encode_utf8_decode_utf8(s@.skip(i + 1));
            }
            Some((before, after))
        },
        None => None,
    }
}

/// Finds the value stored under `key`.
fn find<'a, V>(pairs: &'a Vec<(String, V)>, key: &str) -> (r: Option<&'a V>)
    ensures
        match r {
            Some(v) => lookup(pairs@, key@) == Some(*v),
            None => lookup(pairs@, key@) is None,
        },
{
    let wanted = key.to_owned();
    let mut i: usize = 0;
    assert(pairs@.skip(0) =~= pairs@);
    while i < pairs.len()
        invariant
            i <= pairs@.len(),
            wanted@ == key@,
            lookup(pairs@, key@) == lookup(pairs@.skip(i as int), key@),
        decreases pairs@.len() - i,
    {
        proof {
            assert(pairs@.skip(i as int)[0] == pairs@[i as int]);
            assert(pairs@.skip(i as int).drop_first() =~= pairs@.skip(i + 1));
        }
        if pairs[i].0 == wanted {
            proof {
                assert(pairs@[i as int].0@ == key@);
            }
            return Some(&pairs[i].1);
        }
        i = i + 1;
    }
    proof {
        assert(pairs@.skip(i as int) =~= Seq::<(String, V)>::empty());
    }
    None
}

/// The icons of a directory, collapsed and expanded.
#[derive(Debug, Clone, PartialEq)]
pub struct DirectoryIcons {
    pub collapsed: Option<String>,
    pub expanded: Option<String>,
}

/// The icons of the folding chevron, collapsed and expanded.
#[derive(Debug, Clone, PartialEq)]
pub struct ChevronIcons {
    pub collapsed: Option<String>,
    pub expanded: Option<String>,
}

/// One icon (for now just the path of its asset).
#[derive(Debug, Clone, PartialEq)]
pub struct IconDefinition {
    pub path: String,
}

/// One icon theme as written in a theme file.
#[derive(Debug, Clone)]
pub struct IconThemeContent {
    /// The display name, which is also the theme's id.
    pub name: String,
    pub appearance: AppearanceContent,
    pub directory_icons: DirectoryIcons,
    /// Icons for directories with a given name (`src`, `node_modules`).
    pub named_directory_icons: Vec<(String, DirectoryIcons)>,
    pub chevron_icons: ChevronIcons,
    /// Full file name → icon key (`Dockerfile` → `docker`).
    pub file_stems: Vec<(String, String)>,
    /// Extension → icon key (`rs` → `rust`).
    pub file_suffixes: Vec<(String, String)>,
    /// Icon key → icon.
    pub file_icons: Vec<(String, IconDefinition)>,
}

impl IconThemeContent {
    /// No map of the theme file holds a key twice.
    pub open spec fn keys_unique(&self) -> bool {
        &&& keys_distinct(self.named_directory_icons@)
        &&& keys_distinct(self.file_stems@)
        &&& keys_distinct(self.file_suffixes@)
        &&& keys_distinct(self.file_icons@)
    }
}

/// An icon theme family file: the themes of one icon extension.
#[derive(Debug, Clone)]
pub struct IconThemeFamilyContent {
    pub name: String,
    pub author: String,
    pub themes: Vec<IconThemeContent>,
}

/// An icon theme.
#[derive(Debug, Clone)]
pub struct IconTheme {
    pub id: String,
    pub name: String,
    pub appearance: Appearance,
    /// The generic directory icons.
    pub directory_icons: DirectoryIcons,
    pub named_directory_icons: Vec<(String, DirectoryIcons)>,
    pub chevron_icons: ChevronIcons,
    pub file_stems: Vec<(String, String)>,
    pub file_suffixes: Vec<(String, String)>,
    pub file_icons: Vec<(String, IconDefinition)>,
}

/// A family of icon themes (usually a light and a dark one).
#[derive(Debug, Clone)]
pub struct IconThemeFamily {
    pub id: String,
    pub name: String,
    pub author: String,
    pub themes: Vec<IconTheme>,
}

/// The light/dark form of a theme file at run time.
pub open spec fn appearance_of(content: AppearanceContent) -> Appearance {
    match content {
        AppearanceContent::Light => Appearance::Light,
        AppearanceContent::Dark => Appearance::Dark,
    }
}

impl IconTheme {
    /// No map of the theme holds a key twice.
    pub open spec fn keys_unique(&self) -> bool {
        &&& keys_distinct(self.named_directory_icons@)
        &&& keys_distinct(self.file_stems@)
        &&& keys_distinct(self.file_suffixes@)
        &&& keys_distinct(self.file_icons@)
    }

    /// The icon path of a file: by its full name, else by its extension.
    pub open spec fn icon_for_file_spec(self, file_name: Seq<char>) -> Option<String> {
        let by_stem = match lookup(self.file_stems@, file_name) {
            Some(key) => lookup(self.file_icons@, key@),
            None => None,
        };
        match by_stem {
            Some(icon) => Some(icon.path),
            None => match extension(file_name) {
                Some(suffix) => match lookup(self.file_suffixes@, suffix) {
                    Some(key) => match lookup(self.file_icons@, key@) {
                        Some(icon) => Some(icon.path),
                        None => None,
                    },
                    None => None,
                },
                None => None,
            },
        }
    }

    /// The icons that a directory gets: its own when its name has them,
    /// else the generic ones.
    pub open spec fn directory_icons_for(self, directory_name: Seq<char>) -> DirectoryIcons {
        match lookup(self.named_directory_icons@, directory_name) {
            Some(icons) => icons,
            None => self.directory_icons,
        }
    }

    /// The icon path of a file: by its full name first (`Cargo.lock` is more
    /// precise than `lock`), else by the part after its last dot. `None`
    /// when neither is known: the caller falls back to a generic file icon.
    pub fn icon_for_file(&self, file_name: &str) -> (r: Option<&String>)
        ensures
            match r {
                Some(p) => self.icon_for_file_spec(file_name@) == Some(*p),
                None => self.icon_for_file_spec(file_name@) is None,
            },
    {
        if let Some(key) = find(&self.file_stems, file_name) {
            if let Some(icon) = find(&self.file_icons, key.as_str()) {
                return Some(&icon.path);
            }
        }
        let (_, suffix) = match split_at_last_dot(file_name) {
            Some(parts) => parts,
            None => return None,
        };
        let key = match find(&self.file_suffixes, suffix) {
            Some(key) => key,
            None => return None,
        };
        match find(&self.file_icons, key.as_str()) {
            Some(icon) => Some(&icon.path),
            None => None,
        }
    }

    /// The icon path of a directory, expanded or collapsed: by its name
    /// first, else the generic folder icon.
    pub fn icon_for_directory(&self, directory_name: &str, expanded: bool) -> (r: Option<&String>)
        ensures
            ({
                let icons = self.directory_icons_for(directory_name@);
                let icon = if expanded {
                    icons.expanded
                } else {
                    icons.collapsed
                };
                match r {
                    Some(p) => icon == Some(*p),
                    None => icon is None,
                }
            }),
    {
        let icons = match find(&self.named_directory_icons, directory_name) {
            Some(icons) => icons,
            None => &self.directory_icons,
        };
        if expanded {
            icons.expanded.as_ref()
        } else {
            icons.collapsed.as_ref()
        }
    }

    /// The icon path of the folding chevron.
    pub fn chevron_icon(&self, expanded: bool) -> (r: Option<&String>)
        ensures
            ({
                let icon = if expanded {
                    self.chevron_icons.expanded
                } else {
                    self.chevron_icons.collapsed
                };
                match r {
                    Some(p) => icon == Some(*p),
                    None => icon is None,
                }
            }),
    {
        if expanded {
            self.chevron_icons.expanded.as_ref()
        } else {
            self.chevron_icons.collapsed.as_ref()
        }
    }

    /// The theme that a theme file describes; its name is also its id.
    pub fn from_content(content: IconThemeContent) -> (r: Self)
        requires
            content.keys_unique(),
        ensures
            r.keys_unique(),
            r.id@ == content.name@,
            r.name == content.name,
            r.appearance == appearance_of(content.appearance),
            r.directory_icons == content.directory_icons,
            r.named_directory_icons == content.named_directory_icons,
            r.chevron_icons == content.chevron_icons,
            r.file_stems == content.file_stems,
            r.file_suffixes == content.file_suffixes,
            r.file_icons == content.file_icons,
    {
        let appearance = match content.appearance {
            AppearanceContent::Light => Appearance::Light,
            AppearanceContent::Dark => Appearance::Dark,
        };
        IconTheme {
            id: content.name.clone(),
            name: content.name,
            appearance,
            directory_icons: content.directory_icons,
            named_directory_icons: content.named_directory_icons,
            chevron_icons: content.chevron_icons,
            file_stems: content.file_stems,
            file_suffixes: content.file_suffixes,
            file_icons: content.file_icons,
        }
    }
}

impl IconThemeFamily {
    /// The family that a family file describes: its name is also its id,
    /// and each theme is built as [`IconTheme::from_content`] builds it.
    pub fn from_content(content: IconThemeFamilyContent) -> (r: Self)
        requires
            forall|i: int| 0 <= i < content.themes@.len() ==> (#[trigger] content.themes@[i]).keys_unique(),
        ensures
            forall|i: int| 0 <= i < r.themes@.len() ==> (#[trigger] r.themes@[i]).keys_unique(),
            r.id@ == content.name@,
            r.name == content.name,
            r.author == content.author,
            r.themes@.len() == content.themes@.len(),
            forall|i: int|
                0 <= i < r.themes@.len() ==> {
                    let t = #[trigger] r.themes@[i];
                    let c = content.themes@[i];
                    &&& t.id@ == c.name@
                    &&& t.name == c.name
                    &&& t.appearance == appearance_of(c.appearance)
                    &&& t.directory_icons == c.directory_icons
                    &&& t.named_directory_icons == c.named_directory_icons
                    &&& t.chevron_icons == c.chevron_icons
                    &&& t.file_stems == c.file_stems
                    &&& t.file_suffixes == c.file_suffixes
                    &&& t.file_icons == c.file_icons
                },
    {
        let IconThemeFamilyContent { name, author, themes: contents } = content;
        let ghost all = contents@;
        let mut rest = contents;
        let mut themes: Vec<IconTheme> = Vec::new();
        while rest.len() > 0
            invariant
                themes@.len() + rest@.len() == all.len(),
                rest@ == all.skip(themes@.len() as int),
                forall|i: int| 0 <= i < all.len() ==> (#[trigger] all[i]).keys_unique(),
                forall|i: int| 0 <= i < themes@.len() ==> (#[trigger] themes@[i]).keys_unique(),
                forall|i: int|
                    0 <= i < themes@.len() ==> {
                        let t = #[trigger] themes@[i];
                        let c = all[i];
                        &&& t.id@ == c.name@
                        &&& t.name == c.name
                        &&& t.appearance == appearance_of(c.appearance)
                        &&& t.directory_icons == c.directory_icons
                        &&& t.named_directory_icons == c.named_directory_icons
                        &&& t.chevron_icons == c.chevron_icons
                        &&& t.file_stems == c.file_stems
                        &&& t.file_suffixes == c.file_suffixes
                        &&& t.file_icons == c.file_icons
                    },
            decreases rest@.len(),
        {
            let c = rest.remove(0);
            proof {
                assert(c == all[themes@.len() as int]);
            }
            themes.push(IconTheme::from_content(c));
            proof {
                assert(rest@ =~= all.skip(themes@.len() as int));
            }
        }
        IconThemeFamily { id: name.clone(), name, author, themes }
    }
}

/// The name of the default icon theme.
pub const DEFAULT_ICON_THEME_NAME: &'static str = "ui-gpui (Default)";

/// The default icon theme: directory and chevron icons only, no file type
/// mappings (there are no file icon assets yet).
pub fn default_icon_theme() -> (r: IconTheme)
    ensures
        r.keys_unique(),
        r.appearance == Appearance::Dark,
        r.directory_icons.collapsed is Some,
        r.directory_icons.expanded is Some,
        r.chevron_icons.collapsed is Some,
        r.chevron_icons.expanded is Some,
        r.named_directory_icons@.len() == 0,
        r.file_stems@.len() == 0,
        r.file_suffixes@.len() == 0,
        r.file_icons@.len() == 0,
{
    IconTheme {
        id: "ui-gpui-default".to_owned(),
        name: DEFAULT_ICON_THEME_NAME.to_owned(),
        appearance: Appearance::Dark,
        directory_icons: DirectoryIcons {
            collapsed: Some("icons/file_icons/folder.svg".to_owned()),
            expanded: Some("icons/file_icons/folder_open.svg".to_owned()),
        },
        named_directory_icons: Vec::new(),
        chevron_icons: ChevronIcons {
            collapsed: Some("icons/file_icons/chevron_right.svg".to_owned()),
            expanded: Some("icons/file_icons/chevron_down.svg".to_owned()),
        },
        file_stems: Vec::new(),
        file_suffixes: Vec::new(),
        file_icons: Vec::new(),
    }
}

} // verus!
