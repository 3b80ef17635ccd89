//! The font cache: an in-memory index over scanned font metadata. It is
//! loaded lazily, exactly once, from the listings of the candidate font
//! directories, and serves a full view, a paged view and a count. The
//! scanning itself is the caller's: the cache receives each directory's
//! listing as plain values and tolerates unreadable directories.

use crate::font::FontInfo;
use crate::font::FontMeta;
use crate::font::extract_font;
use crate::font::font_of;
use crate::font::qualifies;
use vstd::prelude::*;

verus! {

/// One directory entry handed in by the scanner: the entry's bare file name
/// and its full path.
pub struct ScanEntry {
    pub file_name: String,
    pub path: String,
}

/// What scanning one candidate font directory produced, in directory
/// iteration order. A missing or unreadable directory is reported with
/// `readable == false` and no entries; it is skipped, never an error.
pub struct DirListing {
    pub readable: bool,
    pub entries: Vec<ScanEntry>,
}

/// Model of the cache: the descriptors loaded so far and the one-time
/// loaded flag.
pub ghost struct CacheModel {
    pub fonts: Seq<FontMeta>,
    pub loaded: bool,
}

/// The models of a sequence of descriptors.
pub open spec fn fonts_views(s: Seq<FontInfo>) -> Seq<FontMeta> {
    s.map_values(|f: FontInfo| f@)
}

/// The descriptors contributed by one readable directory's entries, in
/// iteration order: qualifying entries each yield one descriptor, the rest
/// are filtered out.
pub open spec fn entries_fonts(es: Seq<ScanEntry>) -> Seq<FontMeta>
    decreases es.len(),
{
    if es.len() == 0 {
        Seq::empty()
    } else {
        entries_fonts(es.drop_last()) + (if qualifies(es.last().file_name@) {
            seq![font_of(es.last().file_name@, es.last().path@)]
        } else {
            Seq::empty()
        })
    }
}

/// The descriptors contributed by one scanned directory: none when it was
/// unreadable.
pub open spec fn dir_fonts(d: DirListing) -> Seq<FontMeta> {
    if d.readable {
        entries_fonts(d.entries@)
    } else {
        Seq::empty()
    }
}

/// The descriptors a whole scan yields, in directory-list order then
/// directory-iteration order.
pub open spec fn scan_fonts(scan: Seq<DirListing>) -> Seq<FontMeta>
    decreases scan.len(),
{
    if scan.len() == 0 {
        Seq::empty()
    } else {
        scan_fonts(scan.drop_last()) + dir_fonts(scan.last())
    }
}

/// The cache state after one ensure-loaded pass over `scan`: a no-op when
/// already loaded, otherwise the scan's descriptors are appended and the
/// flag is set unconditionally, even when nothing was found.
pub open spec fn spec_load(c: CacheModel, scan: Seq<DirListing>) -> CacheModel {
    CacheModel {
        loaded: true,
        fonts: if c.loaded {
            c.fonts
        } else {
            c.fonts + scan_fonts(scan)
        },
    }
}

/// The slice of `fonts` shown on page `page` with `page_size` entries per
/// page: pages are 0-indexed, an out-of-range page is empty, a partial last
/// page is short, and page size zero shows nothing.
pub open spec fn page_slice(fonts: Seq<FontMeta>, page: int, page_size: int) -> Seq<FontMeta> {
    let start = page * page_size;
    let end = if start + page_size <= fonts.len() {
        start + page_size
    } else {
        fonts.len() as int
    };
    if start >= fonts.len() {
        Seq::empty()
    } else {
        fonts.subrange(start, end)
    }
}

/// Loading is idempotent: once a pass has run, a later pass over any scan,
/// through any accessor, leaves the cache exactly as it was.
pub proof fn lemma_load_idempotent(c: CacheModel, s1: Seq<DirListing>, s2: Seq<DirListing>)
    ensures
        spec_load(spec_load(c, s1), s2) == spec_load(c, s1),
{
}

/// The full listing and the reported count agree: a count taken after a
/// full listing, each running its own ensure-loaded pass over possibly
/// different scans, equals the listing's length.
pub proof fn lemma_listing_matches_count(c: CacheModel, s1: Seq<DirListing>, s2: Seq<DirListing>)
    ensures
        spec_load(spec_load(c, s1), s2).fonts.len() == spec_load(c, s1).fonts.len(),
{
    lemma_load_idempotent(c, s1, s2);
}

/// Every qualifying entry of a readable directory contributes its
/// descriptor to that directory's fonts.
proof fn lemma_entries_fonts_contains(es: Seq<ScanEntry>, j: int)
    requires
        0 <= j < es.len(),
        qualifies(es[j].file_name@),
    ensures
        entries_fonts(es).contains(font_of(es[j].file_name@, es[j].path@)),
    decreases es.len(),
{
    if j == es.len() - 1 {
        let w = entries_fonts(es.drop_last()).len() as int;
        assert(entries_fonts(es)[w] == font_of(es[j].file_name@, es[j].path@));
    } else {
        lemma_entries_fonts_contains(es.drop_last(), j);
        assert(es.drop_last()[j] == es[j]);
        let pre = entries_fonts(es.drop_last());
        let w = choose|w: int| 0 <= w < pre.len() && pre[w] == font_of(
            es[j].file_name@,
            es[j].path@,
        );
        assert(entries_fonts(es)[w] == font_of(es[j].file_name@, es[j].path@));
    }
}

/// Partial-failure tolerance: unreadable directories in the candidate list
/// never keep a qualifying entry of a readable directory out of the loaded
/// collection.
pub proof fn lemma_readable_dir_fonts_kept(scan: Seq<DirListing>, i: int, j: int)
    requires
        0 <= i < scan.len(),
        scan[i].readable,
        0 <= j < scan[i].entries@.len(),
        qualifies(scan[i].entries@[j].file_name@),
    ensures
        scan_fonts(scan).contains(
            font_of(scan[i].entries@[j].file_name@, scan[i].entries@[j].path@),
        ),
    decreases scan.len(),
{
    let f = font_of(scan[i].entries@[j].file_name@, scan[i].entries@[j].path@);
    if i == scan.len() - 1 {
        lemma_entries_fonts_contains(scan[i].entries@, j);
        let pre = scan_fonts(scan.drop_last());
        let w = choose|w: int|
            0 <= w < dir_fonts(scan[i]).len() && dir_fonts(scan[i])[w] == f;
        assert(scan_fonts(scan)[pre.len() + w] == f);
    } else {
        assert(scan.drop_last()[i] == scan[i]);
        lemma_readable_dir_fonts_kept(scan.drop_last(), i, j);
        let pre = scan_fonts(scan.drop_last());
        let w = choose|w: int| 0 <= w < pre.len() && pre[w] == f;
        assert(scan_fonts(scan)[w] == f);
    }
}

/// The lazily loaded font index. Created empty; the first ensure-loaded
/// pass fills it from the scan it is handed and flips the flag; every later
/// operation serves from memory.
pub struct FontCache {
    fonts: Vec<FontInfo>,
    loaded: bool,
}

impl View for FontCache {
    type V = CacheModel;

    closed spec fn view(&self) -> CacheModel {
        CacheModel { fonts: fonts_views(self.fonts@), loaded: self.loaded }
    }
}

impl FontCache {
    /// A fresh cache: empty and not yet loaded.
    pub fn new() -> (r: FontCache)
        ensures
            r@ == (CacheModel { fonts: Seq::<FontMeta>::empty(), loaded: false }),
    {
        let c = FontCache { fonts: Vec::new(), loaded: false };
        proof {
            assert(fonts_views(c.fonts@) =~= Seq::<FontMeta>::empty());
        }
        c
    }

    /// One-time lazy load: on the first call the scan's qualifying entries
    /// are appended in order and the cache becomes loaded, unreadable
    /// directories contributing nothing; later calls change nothing.
    /// Directory-read failures are swallowed by the scanner, so this never
    /// fails.
    pub fn load_fonts(&mut self, scan: &Vec<DirListing>) -> (r: Result<(), String>)
        ensures
            r is Ok,
            final(self)@ == spec_load(old(self)@, scan@),
    {
        if self.loaded {
            return Ok(());
        }
        let ghost base = fonts_views(self.fonts@);
        let mut di: usize = 0;
        while di < scan.len()
            invariant
                di <= scan@.len(),
                self.loaded == false,
                fonts_views(self.fonts@) == base + scan_fonts(scan@.take(di as int)),
            decreases scan@.len() - di,
        {
            let d = &scan[di];
            if d.readable {
                let ghost dir_base = fonts_views(self.fonts@);
                let mut j: usize = 0;
                while j < d.entries.len()
                    invariant
                        j <= d.entries@.len(),
                        self.loaded == false,
                        d == scan@[di as int],
                        fonts_views(self.fonts@) == dir_base + entries_fonts(
                            d.entries@.take(j as int),
                        ),
                    decreases d.entries@.len() - j,
                {
                    let e = &d.entries[j];
                    let ghost pre = fonts_views(self.fonts@);
                    match extract_font(e.file_name.as_str(), e.path.as_str()) {
                        Option::Some(f) => {
                            proof {
                                assert(f@ == font_of(e.file_name@, e.path@));
                            }
                            self.fonts.push(f);
                        },
                        Option::None => {},
                    }
                    proof {
                        let es = d.entries@;
                        assert(es.take(j + 1).drop_last() =~= es.take(j as int));
                        assert(es.take(j + 1).last() == es[j as int]);
                        if qualifies(es[j as int].file_name@) {
                            assert(fonts_views(self.fonts@) =~= pre + seq![
                                font_of(es[j as int].file_name@, es[j as int].path@),
                            ]);
                            assert(entries_fonts(es.take(j + 1)) == entries_fonts(
                                es.take(j as int),
                            ) + seq![font_of(es[j as int].file_name@, es[j as int].path@)]);
                            assert(fonts_views(self.fonts@) =~= dir_base + entries_fonts(
                                es.take(j + 1),
                            ));
                        } else {
                            assert(entries_fonts(es.take(j + 1)) =~= entries_fonts(
                                es.take(j as int),
                            ));
                        }
                    }
                    j += 1;
                }
                proof {
                    assert(d.entries@.take(d.entries@.len() as int) =~= d.entries@);
                }
            }
            proof {
                assert(scan@.take(di + 1).drop_last() =~= scan@.take(di as int));
                assert(scan@.take(di + 1).last() == scan@[di as int]);
                assert(scan_fonts(scan@.take(di + 1)) == scan_fonts(scan@.take(di as int))
                    + dir_fonts(scan@[di as int]));
                assert(fonts_views(self.fonts@) =~= base + scan_fonts(scan@.take(di + 1)));
            }
            di += 1;
        }
        proof {
            assert(scan@.take(scan@.len() as int) =~= scan@);
        }
        self.loaded = true;
        Ok(())
    }

    /// The full collection: runs the lazy load, then hands out an
    /// independent copy of every descriptor, in load order.
    pub fn get_all_fonts(&mut self, scan: &Vec<DirListing>) -> (r: Result<Vec<FontInfo>, String>)
        ensures
            final(self)@ == spec_load(old(self)@, scan@),
            r matches Ok(v) && fonts_views(v@) == final(self)@.fonts,
    {
        self.load_fonts(scan)?;
        let ghost model = self@;
        let mut out: Vec<FontInfo> = Vec::new();
        let mut i: usize = 0;
        while i < self.fonts.len()
            invariant
                i <= self.fonts@.len(),
                self@ == model,
                out@.len() == i,
                forall|j: int| 0 <= j < i ==> out@[j]@ == fonts_views(self.fonts@)[j],
            decreases self.fonts@.len() - i,
        {
            let f = self.fonts[i].duplicate();
            out.push(f);
            i += 1;
        }
        proof {
            assert(fonts_views(out@) =~= self@.fonts);
        }
        Ok(out)
    }

    /// The number of descriptors the single load produced.
    pub fn get_font_count(&mut self, scan: &Vec<DirListing>) -> (r: Result<usize, String>)
        ensures
            final(self)@ == spec_load(old(self)@, scan@),
            r matches Ok(n) && n == final(self)@.fonts.len(),
    {
        self.load_fonts(scan)?;
        Ok(self.fonts.len())
    }

    /// Page `page` of the collection, `page_size` descriptors per page:
    /// the slice `[page * page_size, min(page * page_size + page_size,
    /// count))`, empty when the page lies past the collection or the page
    /// size is zero. A page is never longer than `page_size`, and with a
    /// positive page size it is empty exactly when `page * page_size`
    /// reaches the count.
    pub fn get_paginated_fonts(
        &mut self,
        scan: &Vec<DirListing>,
        page: usize,
        page_size: usize,
    ) -> (r: Result<Vec<FontInfo>, String>)
        ensures
            final(self)@ == spec_load(old(self)@, scan@),
            r matches Ok(v) && {
                let fonts = final(self)@.fonts;
                &&& fonts_views(v@) == page_slice(fonts, page as int, page_size as int)
                &&& v@.len() <= page_size
                &&& (page_size > 0 ==> ((v@.len() == 0) <==> page * page_size >= fonts.len()))
            },
    {
        self.load_fonts(scan)?;
        let ghost fonts = self@.fonts;
        let len = self.fonts.len();
        let start_opt = page.checked_mul(page_size);
        let start = match start_opt {
            Option::None => {
                proof {
                    assert(page * page_size > usize::MAX >= len);
                    assert(page_slice(fonts, page as int, page_size as int)
                        =~= Seq::<FontMeta>::empty());
                    assert(fonts_views(Seq::<FontInfo>::empty()) =~= Seq::<FontMeta>::empty());
                }
                return Ok(Vec::new());
            },
            Option::Some(s) => s,
        };
        if start >= len {
            proof {
                assert(page_slice(fonts, page as int, page_size as int)
                    =~= Seq::<FontMeta>::empty());
                assert(fonts_views(Seq::<FontInfo>::empty()) =~= Seq::<FontMeta>::empty());
            }
            return Ok(Vec::new());
        }
        let end = if page_size < len - start {
            start + page_size
        } else {
            len
        };
        let ghost model = self@;
        let mut out: Vec<FontInfo> = Vec::new();
        let mut i: usize = start;
        while i < end
            invariant
                start <= i <= end <= self.fonts@.len(),
                self@ == model,
                out@.len() == i - start,
                forall|j: int| 0 <= j < i - start ==> out@[j]@ == fonts_views(self.fonts@)[start
                    + j],
            decreases end - i,
        {
            let f = self.fonts[i].duplicate();
            out.push(f);
            i += 1;
        }
        proof {
            assert(fonts_views(out@) =~= page_slice(fonts, page as int, page_size as int));
        }
        Ok(out)
    }
}

} // verus!
