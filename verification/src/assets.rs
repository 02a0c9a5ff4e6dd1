//! The embedded assets (icons, fonts): which of them a directory holds.

use vstd::prelude::*;
use vstd::utf8::*;

verus! {

/// The assets embedded in the kit (the SVG icons and fonts under `assets/`).
/// The embedding itself happens at build time; the listing works on the
/// paths that it yields.
pub struct Assets;

/// Whether `path` starts with `prefix`, byte for byte.
pub open spec fn has_prefix(path: Seq<char>, prefix: Seq<char>) -> bool {
    encode_utf8(prefix).is_prefix_of(encode_utf8(path))
}

/// The test for paths under `prefix`.
pub open spec fn under(prefix: Seq<char>) -> spec_fn(Seq<char>) -> bool {
    |p: Seq<char>| has_prefix(p, prefix)
}

/// The test for font files.
pub open spec fn is_font(path: Seq<char>) -> bool {
    has_suffix(path, ".ttf"@)
}

/// The views of a list of strings.
pub open spec fn texts(strings: Seq<String>) -> Seq<Seq<char>> {
    strings.map_values(|p: String| p@)
}

/// Whether `path` ends with `suffix`, byte for byte.
pub open spec fn has_suffix(path: Seq<char>, suffix: Seq<char>) -> bool {
    let p = encode_utf8(path);
    let s = encode_utf8(suffix);
    s.len() <= p.len() && p.subrange(p.len() - s.len(), p.len() as int) == s
}

/// `str::starts_with` on two strings, comparing bytes.
fn starts_with(path: &str, prefix: &str) -> (r: bool)
    ensures
        r == has_prefix(path@, prefix@),
{
    let p = path.as_bytes();
    let q = prefix.as_bytes();
    if q.len() > p.len() {
        return false;
    }
    let mut i: usize = 0;
    while i < q.len()
        invariant
            p@ == encode_utf8(path@),
            q@ == encode_utf8(prefix@),
            q@.len() <= p@.len(),
            i <= q@.len(),
            forall|k: int| 0 <= k < i ==> p@[k] == q@[k],
        decreases q@.len() - i,
    {
        if p[i] != q[i] {
            proof {
                assert(p@.subrange(0, q@.len() as int)[i as int] != q@[i as int]);
            }
            return false;
        }
        i = i + 1;
    }
    proof {
        assert(p@.subrange(0, q@.len() as int) =~= q@);
    }
    true
}

/// `str::ends_with` on two strings, comparing bytes.
fn ends_with(path: &str, suffix: &str) -> (r: bool)
    ensures
        r == has_suffix(path@, suffix@),
{
    let p = path.as_bytes();
    let q = suffix.as_bytes();
    if q.len() > p.len() {
        return false;
    }
    let start = p.len() - q.len();
    let mut i: usize = 0;
    while i < q.len()
        invariant
            p@ == encode_utf8(path@),
            q@ == encode_utf8(suffix@),
            p@.len() <= usize::MAX,
            q@.len() <= p@.len(),
            start == p@.len() - q@.len(),
            i <= q@.len(),
            forall|k: int| 0 <= k < i ==> p@[start + k] == q@[k],
        decreases q@.len() - i,
    {
        if p[start + i] != q[i] {
            proof {
                assert(p@.subrange(start as int, p@.len() as int)[i as int] != q@[i as int]);
            }
            return false;
        }
        i = i + 1;
    }
    proof {
        assert(p@.subrange(start as int, p@.len() as int) =~= q@);
    }
    true
}

impl Assets {
    /// The asset paths under `path` (those that start with it), in the order
    /// in which `embedded` lists them.
    pub fn list(&self, embedded: &Vec<String>, path: &str) -> (r: Vec<String>)
        ensures
            texts(r@) == texts(embedded@).filter(under(path@)),
    {
        let mut found: Vec<String> = Vec::new();
        let mut i: usize = 0;
        proof {
            reveal(Seq::filter);
            assert(texts(embedded@.take(0)) =~= Seq::<Seq<char>>::empty());
            assert(texts(found@) =~= Seq::<Seq<char>>::empty());
        }
        while i < embedded.len()
            invariant
                i <= embedded@.len(),
                texts(found@) == texts(embedded@.take(i as int)).filter(under(path@)),
            decreases embedded@.len() - i,
        {
            let candidate = &embedded[i];
            let ghost before = texts(found@);
            let ghost names = texts(embedded@.take(i + 1));
            proof {
                reveal(Seq::filter);
                assert(names.drop_last() =~= texts(embedded@.take(i as int)));
                assert(names.last() == candidate@);
            }
            if starts_with(candidate.as_str(), path) {
                found.push(candidate.clone());
                proof {
                    assert(texts(found@) =~= before.push(candidate@));
                }
            }
            i = i + 1;
        }
        proof {
            assert(embedded@.take(embedded@.len() as int) =~= embedded@);
        }
        found
    }
    /// The fonts to load into the text system: the `.ttf` files under
    /// `fonts`, in the order in which `embedded` lists them. (Loading their
    /// bytes is the host's part.)
    pub fn font_paths(&self, embedded: &Vec<String>) -> (r: Vec<String>)
        ensures
            texts(r@) == texts(embedded@).filter(under("fonts"@)).filter(|p: Seq<char>| is_font(p)),
    {
        let listed = self.list(embedded, "fonts");
        let mut fonts: Vec<String> = Vec::new();
        let mut i: usize = 0;
        proof {
            reveal(Seq::filter);
            assert(texts(listed@.take(0)) =~= Seq::<Seq<char>>::empty());
            assert(texts(fonts@) =~= Seq::<Seq<char>>::empty());
        }
        while i < listed.len()
            invariant
                i <= listed@.len(),
                texts(fonts@) == texts(listed@.take(i as int)).filter(|p: Seq<char>| is_font(p)),
            decreases listed@.len() - i,
        {
            let candidate = &listed[i];
            let ghost before = texts(fonts@);
            let ghost names = texts(listed@.take(i + 1));
            proof {
                reveal(Seq::filter);
                assert(names.drop_last() =~= texts(listed@.take(i as int)));
                assert(names.last() == candidate@);
            }
            if ends_with(candidate.as_str(), ".ttf") {
                fonts.push(candidate.clone());
                proof {
                    assert(texts(fonts@) =~= before.push(candidate@));
                }
            }
            i = i + 1;
        }
        proof {
            assert(listed@.take(listed@.len() as int) =~= listed@);
        }
        fonts
    }
}

} // verus!
