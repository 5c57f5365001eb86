//! What is kept between renderings: contexts, compiled variants and the glyphs already written.
use vstd::prelude::*;

use crate::text::same;

verus! {

broadcast use vstd::string::group_string_axioms;

/// How many render contexts are kept.
pub const RENDER_CONTEXT_CACHE_MAX_ENTRIES: usize = 32;

// ---------------------------------------------------------------------------------------------
// Render contexts
// ---------------------------------------------------------------------------------------------
/// Render contexts by their style sheet, the oldest first.
pub struct RenderContextCache<T> {
    pub entries: Vec<(String, T)>,
}

/// The entries as plain sequences.
pub open spec fn entry_views<T>(v: Seq<(String, T)>) -> Seq<(Seq<char>, T)> {
    Seq::new(v.len(), |i: int| (v[i].0@, v[i].1))
}

/// The place of a key among the first `n` entries.
pub open spec fn key_place<T>(entries: Seq<(Seq<char>, T)>, key: Seq<char>, n: int) -> Option<int>
    decreases n,
{
    if n <= 0 {
        None
    } else if entries[n - 1].0 == key {
        Some(n - 1)
    } else {
        key_place(entries, key, n - 1)
    }
}

/// What is kept under a key.
pub open spec fn kept<T>(entries: Seq<(Seq<char>, T)>, key: Seq<char>) -> Option<T> {
    match key_place(entries, key, entries.len() as int) {
        Some(i) => Some(entries[i].1),
        None => None,
    }
}

/// The entries after `value` was offered under `key`: nothing changes when the key is there, else
/// the entry goes last, and the oldest leaves where there are too many.
pub open spec fn with_entry<T>(entries: Seq<(Seq<char>, T)>, key: Seq<char>, value: T) -> Seq<
    (Seq<char>, T),
> {
    if kept(entries, key) is Some {
        entries
    } else if entries.len() >= RENDER_CONTEXT_CACHE_MAX_ENTRIES {
        entries.drop_first().push((key, value))
    } else {
        entries.push((key, value))
    }
}

impl<T> RenderContextCache<T> {
    /// The entries, the oldest first.
    pub open spec fn list(self) -> Seq<(Seq<char>, T)> {
        entry_views(self.entries@)
    }

    /// There are never more entries than may be kept.
    pub open spec fn is_valid(self) -> bool {
        self.list().len() <= RENDER_CONTEXT_CACHE_MAX_ENTRIES
    }

    /// A cache that keeps nothing yet.
    pub fn new() -> (c: Self)
        ensures
            c.is_valid(),
            c.list() == Seq::<(Seq<char>, T)>::empty(),
    {
        let entries: Vec<(String, T)> = Vec::new();
        let c = RenderContextCache { entries };
        proof {
            assert(c.list() =~= Seq::empty());
        }
        c
    }

    /// What is kept under a style sheet.
    pub fn get(&self, css: &str) -> (r: Option<&T>)
        ensures
            match r {
                Some(v) => kept(self.list(), css@) == Some(*v),
                None => kept(self.list(), css@) is None,
            },
    {
        let mut i: usize = self.entries.len();
        while i > 0
            invariant
                i <= self.entries@.len(),
                key_place(self.list(), css@, i as int) == key_place(
                    self.list(),
                    css@,
                    self.entries@.len() as int,
                ),
            decreases i,
        {
            i -= 1;
            proof {
                assert(self.list()[i as int] == (
                    self.entries@[i as int].0@,
                    self.entries@[i as int].1,
                ));
            }
            if same(&self.entries[i].0, css) {
                return Some(&self.entries[i].1);
            }
        }
        None
    }

    /// Keeps a context under a style sheet.
    pub fn insert(&mut self, css: String, context: T)
        requires
            old(self).is_valid(),
        ensures
            final(self).is_valid(),
            final(self).list() == with_entry(old(self).list(), css@, context),
    {
        if self.get(&css).is_some() {
            return;
        }
        let ghost before = self.list();
        let ghost key = css@;
        proof {
            assert(before.len() == self.entries@.len());
        }
        if self.entries.len() >= RENDER_CONTEXT_CACHE_MAX_ENTRIES {
            let _oldest = self.entries.remove(0);
        }
        self.entries.push((css, context));
        proof {
            assert(self.list() =~= with_entry(before, key, context));
        }
    }
}

/// What was just offered can be read back, unless something was kept under the key before.
pub proof fn offered_is_kept<T>(entries: Seq<(Seq<char>, T)>, key: Seq<char>, value: T)
    ensures
        kept(entries, key) is None ==> kept(with_entry(entries, key, value), key) == Some(value),
        kept(entries, key) is Some ==> kept(with_entry(entries, key, value), key) == kept(
            entries,
            key,
        ),
{
    let now = with_entry(entries, key, value);
    if kept(entries, key) is None {
        assert(now.last() == (key, value));
    }
}

// ---------------------------------------------------------------------------------------------
// Compiled variants
// ---------------------------------------------------------------------------------------------
/// The compiled variants of one record shape, and whether one more is being compiled.
pub struct FlowProgramEntry {
    pub variants: usize,
    pub compiling: bool,
}

/// What a renderer does when no variant that it tried takes its values.
#[derive(Clone, Copy, Debug, PartialEq, Eq, Structural)]
pub enum FlowStep {
    /// There are new variants: try again.
    Retry,
    /// Nobody compiles: compile one.
    Compile,
    /// Somebody compiles: wait.
    Wait,
}

impl FlowProgramEntry {
    /// Decides what a renderer does that tried `tried` variants in vain. Only one compiles at a
    /// time, and only after it has tried all there are.
    pub fn decide(&mut self, tried: usize) -> (r: FlowStep)
        ensures
            final(self).variants == old(self).variants,
            r == (if old(self).variants != tried {
                FlowStep::Retry
            } else if old(self).compiling {
                FlowStep::Wait
            } else {
                FlowStep::Compile
            }),
            final(self).compiling == (old(self).compiling || r == FlowStep::Compile),
    {
        if self.variants != tried {
            FlowStep::Retry
        } else if self.compiling {
            FlowStep::Wait
        } else {
            self.compiling = true;
            FlowStep::Compile
        }
    }

    /// Notes that the compilation ended, with one more variant if it succeeded.
    pub fn finish(&mut self, compiled: bool)
        requires
            old(self).compiling,
            old(self).variants < usize::MAX,
        ensures
            !final(self).compiling,
            final(self).variants == old(self).variants + (if compiled {
                1int
            } else {
                0int
            }),
    {
        self.compiling = false;
        if compiled {
            self.variants = self.variants + 1;
        }
    }
}

// ---------------------------------------------------------------------------------------------
// Glyphs
// ---------------------------------------------------------------------------------------------
/// The glyphs of one font that a worker has reported.
pub struct GlyphSet {
    pub seen: Vec<bool>,
}

/// A glyph with the text that it stands for.
pub struct GlyphSource {
    pub gid: u16,
    pub text: String,
}

/// The glyphs of a list.
pub open spec fn glyph_views(v: Seq<GlyphSource>) -> Seq<(u16, Seq<char>)> {
    Seq::new(v.len(), |i: int| (v[i].gid, v[i].text@))
}

/// The glyphs that were not seen before, each with the first text that it stands for, from the
/// first `n` of a list.
pub open spec fn fresh_glyphs(seen: Set<u16>, list: Seq<(u16, Seq<char>)>, n: int) -> Seq<
    (u16, Seq<char>),
>
    decreases n,
{
    if n <= 0 {
        Seq::empty()
    } else {
        let before = fresh_glyphs(seen, list, n - 1);
        if seen.contains(list[n - 1].0) || glyph_listed(before, list[n - 1].0) {
            before
        } else {
            before.push(list[n - 1])
        }
    }
}

/// A list names a glyph.
pub open spec fn glyph_listed(list: Seq<(u16, Seq<char>)>, gid: u16) -> bool {
    exists|i: int| 0 <= i < list.len() && (#[trigger] list[i]).0 == gid
}

impl GlyphSet {
    /// The glyphs that were reported.
    pub open spec fn view(self) -> Set<u16> {
        Set::new(|g: u16| self.seen@[g as int])
    }

    /// There is a mark for each glyph.
    pub open spec fn is_valid(self) -> bool {
        self.seen@.len() == 65_536
    }

    /// A set without glyphs.
    pub fn new() -> (g: Self)
        ensures
            g.is_valid(),
            g.view() == Set::<u16>::empty(),
    {
        let mut seen: Vec<bool> = Vec::new();
        let mut i: usize = 0;
        while i < 65_536
            invariant
                i <= 65_536,
                seen@.len() == i,
                forall|k: int| 0 <= k < i ==> !(#[trigger] seen@[k]),
            decreases 65_536 - i,
        {
            seen.push(false);
            i += 1;
        }
        let g = GlyphSet { seen };
        proof {
            assert(g.view() =~= Set::<u16>::empty());
        }
        g
    }

    /// Reports the glyphs of a text: gives those that are new, each with the first text that it
    /// stands for, and marks them.
    pub fn report(&mut self, list: &Vec<GlyphSource>) -> (out: Vec<GlyphSource>)
        requires
            old(self).is_valid(),
        ensures
            final(self).is_valid(),
            glyph_views(out@) == fresh_glyphs(
                old(self).view(),
                glyph_views(list@),
                list@.len() as int,
            ),
            forall|g: u16| #[trigger]
                final(self).view().contains(g) <==> old(self).view().contains(g) || glyph_listed(
                    glyph_views(list@),
                    g,
                ),
    {
        let ghost start = self.view();
        let ghost all = glyph_views(list@);
        let mut out: Vec<GlyphSource> = Vec::new();
        let mut i: usize = 0;
        proof {
            assert(glyph_views(out@) =~= Seq::empty());
        }
        while i < list.len()
            invariant
                i <= list@.len(),
                all == glyph_views(list@),
                self.is_valid(),
                glyph_views(out@) == fresh_glyphs(start, all, i as int),
                forall|g: u16| #[trigger]
                    self.view().contains(g) <==> start.contains(g) || glyph_listed(
                        all.take(i as int),
                        g,
                    ),
                forall|g: u16| #[trigger]
                    self.view().contains(g) <==> start.contains(g) || glyph_listed(
                        glyph_views(out@),
                        g,
                    ),
            decreases list@.len() - i,
        {
            let gid = list[i].gid;
            let ghost held = glyph_views(out@);
            let ghost marked = self.view();
            proof {
                assert(all[i as int] == (gid, list@[i as int].text@));
                assert(all.take(i + 1) =~= all.take(i as int).push(all[i as int]));
                assert(marked.contains(gid) == self.seen@[gid as int]);
            }
            if !self.seen[gid as usize] {
                out.push(GlyphSource { gid, text: list[i].text.clone() });
                self.seen.set(gid as usize, true);
                proof {
                    assert(glyph_views(out@) =~= held.push(all[i as int]));
                    assert forall|g: u16| #[trigger] self.view().contains(g) <==> marked.contains(g)
                        || g == gid by {}
                }
            }
            proof {
                assert forall|g: u16| #[trigger] self.view().contains(g) <==> start.contains(g)
                    || glyph_listed(all.take(i + 1), g) by {
                    listed_after_push(all.take(i as int), all[i as int], g);
                    assert(marked.contains(g) <==> start.contains(g) || glyph_listed(
                        all.take(i as int),
                        g,
                    ));
                }
                assert forall|g: u16| #[trigger] self.view().contains(g) <==> start.contains(g)
                    || glyph_listed(glyph_views(out@), g) by {
                    listed_after_push(held, all[i as int], g);
                    assert(marked.contains(g) <==> start.contains(g) || glyph_listed(held, g));
                }
            }
            i += 1;
        }
        proof {
            assert(all.take(all.len() as int) =~= all);
        }
        out
    }
}

proof fn listed_after_push(list: Seq<(u16, Seq<char>)>, c: (u16, Seq<char>), g: u16)
    ensures
        glyph_listed(list.push(c), g) <==> glyph_listed(list, g) || c.0 == g,
{
    if glyph_listed(list, g) {
        let i = choose|i: int| 0 <= i < list.len() && (#[trigger] list[i]).0 == g;
        assert(list.push(c)[i].0 == g);
    }
    if c.0 == g {
        assert(list.push(c)[list.len() as int].0 == g);
    }
    if glyph_listed(list.push(c), g) {
        let i = choose|i: int|
            0 <= i < list.push(c).len() && (#[trigger] list.push(c)[i]).0 == g;
        if i < list.len() {
            assert(list[i].0 == g);
        }
    }
}

/// Offering an entry never changes what is kept under another key, unless that was the oldest of a
/// full list, and never replaces what is kept under its own. The list never grows beyond its limit.
pub proof fn other_entries_stay<T>(
    entries: Seq<(Seq<char>, T)>,
    key: Seq<char>,
    value: T,
    other: Seq<char>,
)
    requires
        entries.len() <= RENDER_CONTEXT_CACHE_MAX_ENTRIES,
        forall|i: int, j: int|
            0 <= i < j < entries.len() ==> (#[trigger] entries[i]).0 != (#[trigger] entries[j]).0,
    ensures
        with_entry(entries, key, value).len() <= RENDER_CONTEXT_CACHE_MAX_ENTRIES,
        kept(entries, key) is Some ==> with_entry(entries, key, value) == entries,
        other != key && !(entries.len() == RENDER_CONTEXT_CACHE_MAX_ENTRIES && entries[0].0 == other)
            ==> kept(with_entry(entries, key, value), other) == kept(entries, other),
        kept(entries, key) is None ==> kept(with_entry(entries, key, value), key) == Some(value),
{
    let now = with_entry(entries, key, value);
    key_places(entries, key, entries.len() as int);
    key_places(entries, other, entries.len() as int);
    key_places(now, key, now.len() as int);
    key_places(now, other, now.len() as int);
    if kept(entries, key) is None {
        assert(now[now.len() - 1] == (key, value));
        if other != key {
            match key_place(entries, other, entries.len() as int) {
                Some(i) => {
                    if entries.len() >= RENDER_CONTEXT_CACHE_MAX_ENTRIES {
                        if i > 0 {
                            assert(now[i - 1] == entries[i]);
                        }
                    } else {
                        assert(now[i] == entries[i]);
                    }
                },
                None => {},
            }
            match key_place(now, other, now.len() as int) {
                Some(i) => {
                    if entries.len() >= RENDER_CONTEXT_CACHE_MAX_ENTRIES {
                        assert(now[i] == entries[i + 1]);
                    } else {
                        assert(now[i] == entries[i]);
                    }
                },
                None => {},
            }
        }
    }
}

proof fn key_places<T>(entries: Seq<(Seq<char>, T)>, key: Seq<char>, n: int)
    requires
        0 <= n <= entries.len(),
    ensures
        match key_place(entries, key, n) {
            Some(i) => 0 <= i < n && entries[i].0 == key,
            None => forall|j: int| 0 <= j < n ==> (#[trigger] entries[j]).0 != key,
        },
    decreases n,
{
    if n > 0 {
        key_places(entries, key, n - 1);
    }
}

} // verus!
