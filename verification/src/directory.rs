//! The map directory: one entry per seed that has both a configuration file
//! (`{seed}.ron`) and a preview image (`{seed}.png`) in the repository
//! listing, each entry holding the two download URLs.
use vstd::prelude::*;
use crate::names::{FileKind, kind_of, name_ext, name_seed, parse_name, wf_name};
use vstd::string::StrSliceExecFns;
use vstd::string::StringExecFns;

verus! {

broadcast use vstd::string::group_string_axioms;

/// One file descriptor of the repository listing, as the listing endpoint
/// reports it: a filename and a raw download URL.
pub struct ListedFile {
    pub name: String,
    pub download_url: String,
}

/// One seed's paired URLs: the configuration payload and the preview image.
#[derive(Clone)]
pub struct MapMeta {
    pub seed: u32,
    pub data_url: String,
    pub image_url: String,
}

/// Holds when a listed file is named `"{seed}.{ext}"` with extension of the
/// given kind.
pub open spec fn file_is(f: ListedFile, seed: u32, kind: FileKind) -> bool {
    &&& wf_name(f.name@)
    &&& name_seed(f.name@) == seed as int
    &&& kind_of(name_ext(f.name@)) == kind
}

/// URL of the last file of the given seed and kind in the listing, if any:
/// later files overwrite earlier ones of the same seed and kind.
pub open spec fn last_url(files: Seq<ListedFile>, seed: u32, kind: FileKind) -> Option<Seq<char>>
    decreases files.len(),
{
    if files.len() == 0 {
        None
    } else if file_is(files.last(), seed, kind) {
        Some(files.last().download_url@)
    } else {
        last_url(files.drop_last(), seed, kind)
    }
}

proof fn lemma_last_url_push(files: Seq<ListedFile>, f: ListedFile, seed: u32, kind: FileKind)
    ensures
        last_url(files.push(f), seed, kind) == (if file_is(f, seed, kind) {
            Some(f.download_url@)
        } else {
            last_url(files, seed, kind)
        }),
{
    assert(files.push(f).last() == f);
    assert(files.push(f).drop_last() =~= files);
}

/// The preview image is served from the media host: the raw-download URL with
/// its host component `raw` replaced by `media` and `/media/` inserted after
/// the path's first slash, exactly as the site links images.
pub open spec fn media_url_of(u: Seq<char>) -> Seq<char> {
    u.subrange(0, 8) + "media"@ + u.subrange(11, 34) + "/media/"@ + u.subrange(
        34,
        u.len() as int,
    )
}

proof fn lemma_media_url_len(u: Seq<char>)
    requires
        u.len() >= 34,
    ensures
        media_url_of(u).len() == u.len() + 9,
{
    reveal_strlit("media");
    reveal_strlit("/media/");
}

/// Rewrites a raw-download URL into the media-host URL used for previews.
pub fn media_url(u: &str) -> (r: String)
    requires
        u@.len() >= 34,
    ensures
        r@ == media_url_of(u@),
{
    let mut r = String::new();
    r.append(u.substring_char(0, 8));
    r.append("media");
    r.append(u.substring_char(11, 34));
    r.append("/media/");
    let n = u.unicode_len();
    r.append(u.substring_char(34, n));
    proof {
        assert(r@ =~= media_url_of(u@));
    }
    r
}

/// A seed keeps an entry exactly when the listing gives it a configuration
/// file with a nonempty URL and a preview image.
pub open spec fn entry_kept(files: Seq<ListedFile>, seed: u32) -> bool {
    &&& (match last_url(files, seed, FileKind::Ron) {
        Some(u) => u.len() > 0,
        None => false,
    })
    &&& last_url(files, seed, FileKind::Png) is Some
}

/// Every preview-image URL is long enough to carry the host and leading path
/// components that the media rewrite edits in place.
pub open spec fn png_urls_fit(files: Seq<ListedFile>) -> bool {
    forall|i: int|
        0 <= i < files.len() && wf_name(#[trigger] files[i].name@) && kind_of(
            name_ext(files[i].name@),
        ) == FileKind::Png ==> files[i].download_url@.len() >= 34
}

proof fn lemma_last_png_fit(files: Seq<ListedFile>, seed: u32)
    requires
        png_urls_fit(files),
        last_url(files, seed, FileKind::Png) is Some,
    ensures
        last_url(files, seed, FileKind::Png)->0.len() >= 34,
    decreases files.len(),
{
    if files.len() > 0 {
        if file_is(files.last(), seed, FileKind::Png) {
            assert(files[files.len() - 1] == files.last());
        } else {
            assert(png_urls_fit(files.drop_last())) by {
                assert forall|i: int|
                    0 <= i < files.drop_last().len() && wf_name(
                        #[trigger] files.drop_last()[i].name@,
                    ) && kind_of(name_ext(files.drop_last()[i].name@)) == FileKind::Png implies files.drop_last()[i].download_url@.len()
                    >= 34 by {
                    assert(files.drop_last()[i] == files[i]);
                }
            }
            lemma_last_png_fit(files.drop_last(), seed);
        }
    }
}

/// The directory: entries in strictly ascending seed order.
#[derive(Clone)]
pub struct Maps {
    pub maps: Vec<MapMeta>,
}

proof fn lemma_last_url_exists(files: Seq<ListedFile>, seed: u32, kind: FileKind, i: int)
    requires
        0 <= i < files.len(),
        file_is(files[i], seed, kind),
    ensures
        last_url(files, seed, kind) is Some,
        exists|k: int|
            0 <= k < files.len() && file_is(#[trigger] files[k], seed, kind) && last_url(
                files,
                seed,
                kind,
            ) == Some(files[k].download_url@),
    decreases files.len(),
{
    if file_is(files.last(), seed, kind) {
        assert(files[files.len() - 1] == files.last());
    } else {
        assert(files[i] != files.last());
        assert(i < files.len() - 1);
        assert(files.drop_last()[i] == files[i]);
        lemma_last_url_exists(files.drop_last(), seed, kind, i);
        let k = choose|k: int|
            0 <= k < files.drop_last().len() && file_is(#[trigger] files.drop_last()[k], seed, kind)
                && last_url(files.drop_last(), seed, kind) == Some(
                files.drop_last()[k].download_url@,
            );
        assert(files[k] == files.drop_last()[k]);
        assert(file_is(files[k], seed, kind));
    }
}

proof fn lemma_last_url_none(files: Seq<ListedFile>, seed: u32, kind: FileKind)
    requires
        forall|k: int| 0 <= k < files.len() ==> !file_is(#[trigger] files[k], seed, kind),
    ensures
        last_url(files, seed, kind) is None,
    decreases files.len(),
{
    if files.len() > 0 {
        assert(!file_is(files[files.len() - 1], seed, kind));
        assert forall|k: int| 0 <= k < files.drop_last().len() implies !file_is(
            #[trigger] files.drop_last()[k],
            seed,
            kind,
        ) by {
            assert(files.drop_last()[k] == files[k]);
        }
        lemma_last_url_none(files.drop_last(), seed, kind);
    }
}

/// Law: when a listing holds both `"{seed}.ron"` and `"{seed}.png"` files for
/// a seed — every configuration URL for it nonempty — the directory keeps
/// exactly one entry for that seed, with both of its URLs set.
pub proof fn lemma_paired_seed_present(m: Maps, files: Seq<ListedFile>, seed: u32, i: int, j: int)
    requires
        m.is_directory_of(files),
        png_urls_fit(files),
        0 <= i < files.len(),
        file_is(files[i], seed, FileKind::Ron),
        0 <= j < files.len(),
        file_is(files[j], seed, FileKind::Png),
        forall|k: int|
            0 <= k < files.len() && file_is(#[trigger] files[k], seed, FileKind::Ron)
                ==> files[k].download_url@.len() > 0,
    ensures
        m.contains_seed(seed),
        forall|k1: int, k2: int|
            0 <= k1 < m.maps@.len() && 0 <= k2 < m.maps@.len() && (#[trigger] m.maps@[k1]).seed
                == seed && (#[trigger] m.maps@[k2]).seed == seed ==> k1 == k2,
        forall|k: int|
            0 <= k < m.maps@.len() && (#[trigger] m.maps@[k]).seed == seed ==> m.maps@[k].data_url@.len()
                > 0 && m.maps@[k].image_url@.len() > 0,
{
    lemma_last_url_exists(files, seed, FileKind::Ron, i);
    lemma_last_url_exists(files, seed, FileKind::Png, j);
    assert(entry_kept(files, seed));
    assert(m.contains_seed(seed));
    assert forall|k: int|
        0 <= k < m.maps@.len() && (#[trigger] m.maps@[k]).seed == seed implies m.maps@[k].data_url@.len()
        > 0 && m.maps@[k].image_url@.len() > 0 by {
        lemma_last_png_fit(files, seed);
        lemma_media_url_len(last_url(files, seed, FileKind::Png)->0);
    }
}

/// Law: a seed that has only one of the two file kinds in the listing is
/// absent from the directory.
pub proof fn lemma_unpaired_seed_absent(m: Maps, files: Seq<ListedFile>, seed: u32)
    requires
        m.is_directory_of(files),
        (forall|k: int| 0 <= k < files.len() ==> !file_is(#[trigger] files[k], seed, FileKind::Ron))
            || (forall|k: int|
            0 <= k < files.len() ==> !file_is(#[trigger] files[k], seed, FileKind::Png)),
    ensures
        !m.contains_seed(seed),
{
    if forall|k: int| 0 <= k < files.len() ==> !file_is(#[trigger] files[k], seed, FileKind::Ron) {
        lemma_last_url_none(files, seed, FileKind::Ron);
    } else {
        lemma_last_url_none(files, seed, FileKind::Png);
    }
    assert(!entry_kept(files, seed));
}

/// Law: a file whose name is not `"{integer}.{ext}"` never affects the
/// directory — the directory of a listing with such a file appended is the
/// same, and building it raises no error.
pub proof fn lemma_malformed_file_ignored(m: Maps, files: Seq<ListedFile>, f: ListedFile)
    requires
        m.is_directory_of(files),
        !wf_name(f.name@),
    ensures
        m.is_directory_of(files.push(f)),
{
    let pushed = files.push(f);
    assert forall|s: u32, kd: FileKind| #[trigger] last_url(pushed, s, kd) == last_url(
        files,
        s,
        kd,
    ) by {
        lemma_last_url_push(files, f, s, kd);
    }
    assert forall|seed: u32| m.contains_seed(seed) <==> entry_kept(pushed, seed) by {
        assert(entry_kept(pushed, seed) == entry_kept(files, seed));
    }
}

spec fn acc_sorted(acc: Seq<MapMeta>) -> bool {
    forall|i: int, j: int|
        0 <= i < j < acc.len() ==> (#[trigger] acc[i]).seed < (#[trigger] acc[j]).seed
}

spec fn acc_contains(acc: Seq<MapMeta>, seed: u32) -> bool {
    exists|i: int| 0 <= i < acc.len() && (#[trigger] acc[i]).seed == seed
}

spec fn opt_or_empty(o: Option<Seq<char>>) -> Seq<char> {
    match o {
        Some(u) => u,
        None => Seq::empty(),
    }
}

spec fn img_of(o: Option<Seq<char>>) -> Seq<char> {
    match o {
        Some(u) => media_url_of(u),
        None => Seq::empty(),
    }
}

/// While scanning the listing, an accumulated entry holds the URLs seen so
/// far for its seed, the empty string standing for "not seen yet".
spec fn acc_entry_ok(m: MapMeta, prefix: Seq<ListedFile>) -> bool {
    &&& m.data_url@ == opt_or_empty(last_url(prefix, m.seed, FileKind::Ron))
    &&& m.image_url@ == img_of(last_url(prefix, m.seed, FileKind::Png))
}

spec fn acc_ok(acc: Seq<MapMeta>, prefix: Seq<ListedFile>) -> bool {
    &&& acc_sorted(acc)
    &&& forall|seed: u32|
        acc_contains(acc, seed) <==> (#[trigger] last_url(prefix, seed, FileKind::Ron) is Some
            || last_url(prefix, seed, FileKind::Png) is Some)
    &&& forall|k: int| 0 <= k < acc.len() ==> acc_entry_ok(#[trigger] acc[k], prefix)
}

/// Index of the first accumulated entry whose seed is not below `seed`.
fn position_for(acc: &Vec<MapMeta>, seed: u32) -> (pos: usize)
    requires
        acc_sorted(acc@),
    ensures
        pos <= acc@.len(),
        forall|k: int| 0 <= k < pos ==> (#[trigger] acc@[k]).seed < seed,
        pos < acc@.len() ==> acc@[pos as int].seed >= seed,
{
    let mut pos: usize = 0;
    while pos < acc.len() && acc[pos].seed < seed
        invariant
            pos <= acc@.len(),
            forall|k: int| 0 <= k < pos ==> (#[trigger] acc@[k]).seed < seed,
        decreases acc@.len() - pos,
    {
        pos = pos + 1;
    }
    pos
}

/// Records one listed file `f` of the given seed and kind in the accumulator:
/// the entry for the seed is created if absent, and the URL of the matching
/// kind is overwritten with `url`.
#[verifier::rlimit(60)]
fn upsert(
    acc: &mut Vec<MapMeta>,
    seed: u32,
    kind: FileKind,
    url: String,
    Ghost(prefix): Ghost<Seq<ListedFile>>,
    Ghost(f): Ghost<ListedFile>,
)
    requires
        acc_ok(old(acc)@, prefix),
        file_is(f, seed, kind),
        kind == FileKind::Ron || kind == FileKind::Png,
        kind == FileKind::Ron ==> url@ == f.download_url@,
        kind == FileKind::Png ==> url@ == media_url_of(f.download_url@),
    ensures
        acc_ok(final(acc)@, prefix.push(f)),
{
    let ghost pushed = prefix.push(f);
    proof {
        // `f`'s name pins its seed and kind, so only the (seed, kind) slot of
        // the model changes.
        assert forall|s: u32, kd: FileKind|
            !(s == seed && kd == kind) implies #[trigger] last_url(pushed, s, kd) == last_url(
            prefix,
            s,
            kd,
        ) by {
            lemma_last_url_push(prefix, f, s, kd);
        }
        lemma_last_url_push(prefix, f, seed, kind);
        assert(last_url(pushed, seed, kind) == Some(f.download_url@));
    }
    let pos = position_for(acc, seed);
    let found = pos < acc.len() && acc[pos].seed == seed;
    if found {
        let old_m = acc.remove(pos);
        let new_m = match kind {
            FileKind::Ron => MapMeta { seed, data_url: url, image_url: old_m.image_url },
            _ => MapMeta { seed, data_url: old_m.data_url, image_url: url },
        };
        acc.insert(pos, new_m);
        proof {
            let a0 = old(acc)@;
            assert(acc@ =~= a0.update(pos as int, new_m));
            assert forall|i: int, j: int| 0 <= i < j < acc@.len() implies (#[trigger] acc@[i]).seed
                < (#[trigger] acc@[j]).seed by {
                assert(acc@[i].seed == a0[i].seed && acc@[j].seed == a0[j].seed);
            }
            assert forall|s: u32| acc_contains(acc@, s) <==> acc_contains(a0, s) by {
                if acc_contains(acc@, s) {
                    let i = choose|i: int| 0 <= i < acc@.len() && (#[trigger] acc@[i]).seed == s;
                    assert(a0[i].seed == s);
                }
                if acc_contains(a0, s) {
                    let i = choose|i: int| 0 <= i < a0.len() && (#[trigger] a0[i]).seed == s;
                    assert(acc@[i].seed == s);
                }
            }
            assert forall|k: int| 0 <= k < acc@.len() implies acc_entry_ok(
                #[trigger] acc@[k],
                pushed,
            ) by {
                if k != pos {
                    assert(acc@[k] == a0[k]);
                    assert(acc_entry_ok(a0[k], prefix));
                    if a0[k].seed == seed {
                        // sorted: only position `pos` holds this seed
                        assert(a0[pos as int].seed == seed);
                        assert(k == pos);
                    }
                } else {
                    assert(acc_entry_ok(a0[pos as int], prefix));
                }
            }
        }
    } else {
        let new_m = match kind {
            FileKind::Ron => MapMeta { seed, data_url: url, image_url: String::new() },
            _ => MapMeta { seed, data_url: String::new(), image_url: url },
        };
        acc.insert(pos, new_m);
        proof {
            let a0 = old(acc)@;
            a0.insert_ensures(pos as int, new_m);
            assert(!acc_contains(a0, seed)) by {
                if acc_contains(a0, seed) {
                    let i = choose|i: int| 0 <= i < a0.len() && (#[trigger] a0[i]).seed == seed;
                    if i < pos as int {
                        assert(a0[i].seed < seed);
                    } else {
                        assert(a0[pos as int].seed >= seed);
                        assert(a0[pos as int].seed != seed);
                        if i > pos as int {
                            assert(a0[pos as int].seed < a0[i].seed);
                        }
                    }
                }
            }
            // the seed had no files before this one
            assert(last_url(prefix, seed, FileKind::Ron) is None && last_url(
                prefix,
                seed,
                FileKind::Png,
            ) is None);
            assert forall|i: int, j: int| 0 <= i < j < acc@.len() implies (#[trigger] acc@[i]).seed
                < (#[trigger] acc@[j]).seed by {
                let p = pos as int;
                if j < p {
                    assert(acc@[i] == a0[i] && acc@[j] == a0[j]);
                } else if i < p && j == p {
                    assert(acc@[i] == a0[i] && a0[i].seed < seed);
                } else if i < p && j > p {
                    assert(acc@[i] == a0[i] && acc@[j] == a0[j - 1] && i <= j - 1);
                    if i < j - 1 {
                        assert(a0[i].seed < a0[j - 1].seed);
                    } else {
                        assert(a0[i].seed < seed);
                        assert(a0[j - 1].seed >= seed);
                    }
                } else if i == p {
                    assert(acc@[j] == a0[j - 1] && j - 1 >= p);
                    assert(a0[p].seed != seed && a0[p].seed >= seed);
                    if j - 1 > p {
                        assert(a0[p].seed < a0[j - 1].seed);
                    }
                } else {
                    assert(acc@[i] == a0[i - 1] && acc@[j] == a0[j - 1]);
                }
            }
            assert forall|s: u32|
                acc_contains(acc@, s) <==> (acc_contains(a0, s) || s == seed) by {
                if acc_contains(acc@, s) {
                    let i = choose|i: int| 0 <= i < acc@.len() && (#[trigger] acc@[i]).seed == s;
                    if i < pos as int {
                        assert(a0[i].seed == s);
                    } else if i > pos as int {
                        assert(a0[i - 1].seed == s);
                    }
                }
                if acc_contains(a0, s) {
                    let i = choose|i: int| 0 <= i < a0.len() && (#[trigger] a0[i]).seed == s;
                    if i < pos as int {
                        assert(acc@[i].seed == s);
                    } else {
                        assert(acc@[i + 1].seed == s);
                    }
                }
                if s == seed {
                    assert(acc@[pos as int].seed == s);
                }
            }
            assert forall|k: int| 0 <= k < acc@.len() implies acc_entry_ok(
                #[trigger] acc@[k],
                pushed,
            ) by {
                let p = pos as int;
                if k < p {
                    assert(acc@[k] == a0[k]);
                    assert(acc_entry_ok(a0[k], prefix));
                    assert(a0[k].seed < seed);
                } else if k > p {
                    assert(acc@[k] == a0[k - 1]);
                    assert(acc_entry_ok(a0[k - 1], prefix));
                    assert(a0[k - 1].seed >= seed && a0[k - 1].seed != seed);
                } else {
                    assert(acc@[p] == new_m);
                }
            }
        }
    }
}

impl Maps {
    /// Entries are sorted by seed, so each seed appears at most once.
    pub open spec fn wf(&self) -> bool {
        forall|i: int, j: int|
            0 <= i < j < self.maps@.len() ==> #[trigger] self.maps@[i].seed
                < #[trigger] self.maps@[j].seed
    }

    pub open spec fn contains_seed(&self, seed: u32) -> bool {
        exists|i: int| 0 <= i < self.maps@.len() && #[trigger] self.maps@[i].seed == seed
    }

    /// Builds the directory from a repository listing: files named
    /// `"{seed}.ron"` set an entry's configuration URL, files named
    /// `"{seed}.png"` set its preview URL (rewritten to the media host),
    /// later files of the same seed and kind overwrite earlier ones, any
    /// other filename is ignored, and entries missing either URL are dropped.
    pub fn build(files: &Vec<ListedFile>) -> (r: Maps)
        requires
            png_urls_fit(files@),
        ensures
            r.is_directory_of(files@),
    {
        let mut acc: Vec<MapMeta> = Vec::new();
        let mut idx: usize = 0;
        proof {
            assert(files@.subrange(0, 0) =~= Seq::<ListedFile>::empty());
        }
        while idx < files.len()
            invariant
                idx <= files@.len(),
                png_urls_fit(files@),
                acc_ok(acc@, files@.subrange(0, idx as int)),
            decreases files@.len() - idx,
        {
            let ghost prefix = files@.subrange(0, idx as int);
            let ghost f = files@[idx as int];
            proof {
                assert(prefix.push(f) =~= files@.subrange(0, idx + 1));
            }
            let file = &files[idx];
            match parse_name(file.name.as_str()) {
                Some((seed, FileKind::Ron)) => {
                    let url = file.download_url.clone();
                    upsert(&mut acc, seed, FileKind::Ron, url, Ghost(prefix), Ghost(f));
                },
                Some((seed, FileKind::Png)) => {
                    assert(f.download_url@.len() >= 34);
                    let url = media_url(file.download_url.as_str());
                    upsert(&mut acc, seed, FileKind::Png, url, Ghost(prefix), Ghost(f));
                },
                _ => {
                    proof {
                        // ignored file: it is not a configuration or preview
                        // of any seed, so the model does not change
                        assert forall|s: u32| #[trigger] last_url(prefix.push(f), s, FileKind::Ron)
                            == last_url(prefix, s, FileKind::Ron) && last_url(
                            prefix.push(f),
                            s,
                            FileKind::Png,
                        ) == last_url(prefix, s, FileKind::Png) by {
                            lemma_last_url_push(prefix, f, s, FileKind::Ron);
                            lemma_last_url_push(prefix, f, s, FileKind::Png);
                        }
                        assert(acc_ok(acc@, prefix.push(f)));
                    }
                },
            }
            idx = idx + 1;
        }
        proof {
            assert(files@.subrange(0, files@.len() as int) =~= files@);
        }
        let mut out: Vec<MapMeta> = Vec::new();
        let mut j: usize = 0;
        while j < acc.len()
            invariant
                j <= acc@.len(),
                png_urls_fit(files@),
                acc_ok(acc@, files@),
                acc_sorted(out@),
                forall|k: int|
                    0 <= k < out@.len() ==> exists|k0: int|
                        0 <= k0 < j && acc@[k0] == #[trigger] out@[k],
                forall|s: u32|
                    #[trigger] acc_contains(out@, s) <==> ((exists|k0: int|
                        0 <= k0 < j && (#[trigger] acc@[k0]).seed == s) && entry_kept(files@, s)),
            decreases acc@.len() - j,
        {
            let keep = !acc[j].data_url.as_str().is_empty() && !acc[j].image_url.as_str().is_empty();
            proof {
                // kept exactly when both URLs were seen: the configuration URL
                // is stored verbatim, the image URL is a media rewrite whose
                // length is its source's plus the edited components.
                assert(acc_entry_ok(acc@[j as int], files@));
                if last_url(files@, acc@[j as int].seed, FileKind::Png) is Some {
                    lemma_last_png_fit(files@, acc@[j as int].seed);
                    lemma_media_url_len(last_url(files@, acc@[j as int].seed, FileKind::Png)->0);
                }
                assert(keep == entry_kept(files@, acc@[j as int].seed));
            }
            if keep {
                let m = MapMeta {
                    seed: acc[j].seed,
                    data_url: acc[j].data_url.clone(),
                    image_url: acc[j].image_url.clone(),
                };
                proof {
                    assert(m == acc@[j as int]);
                    let out1 = out@.push(m);
                    assert forall|k: int| 0 <= k < out1.len() implies exists|k0: int|
                        0 <= k0 < j + 1 && acc@[k0] == #[trigger] out1[k] by {
                        if k < out@.len() {
                            let k0 = choose|k0: int| 0 <= k0 < j && acc@[k0] == out@[k];
                            assert(out1[k] == out@[k]);
                            assert(acc@[k0] == out1[k]);
                        } else {
                            assert(out1[k] == m);
                            assert(acc@[j as int] == out1[k]);
                        }
                    }
                    assert forall|i: int, l: int| 0 <= i < l < out1.len() implies (
                    #[trigger] out1[i]).seed < (#[trigger] out1[l]).seed by {
                        if l < out@.len() {
                        } else {
                            let k0 = choose|k0: int| 0 <= k0 < j && acc@[k0] == out@[i];
                            assert(acc@[k0].seed < acc@[j as int].seed);
                        }
                    }
                    assert forall|s: u32|
                        #[trigger] acc_contains(out1, s) <==> ((exists|k0: int|
                            0 <= k0 < j + 1 && (#[trigger] acc@[k0]).seed == s) && entry_kept(
                            files@,
                            s,
                        )) by {
                        if acc_contains(out1, s) {
                            let i = choose|i: int|
                                0 <= i < out1.len() && (#[trigger] out1[i]).seed == s;
                            if i < out@.len() {
                                assert(acc_contains(out@, s)) by {
                                    assert(out@[i].seed == s);
                                }
                            } else {
                                assert(acc@[j as int].seed == s);
                            }
                        }
                        if (exists|k0: int| 0 <= k0 < j + 1 && (#[trigger] acc@[k0]).seed == s)
                            && entry_kept(files@, s) {
                            let k0 = choose|k0: int|
                                0 <= k0 < j + 1 && (#[trigger] acc@[k0]).seed == s;
                            if k0 < j {
                                assert(acc_contains(out@, s));
                                let i = choose|i: int|
                                    0 <= i < out@.len() && (#[trigger] out@[i]).seed == s;
                                assert(out1[i].seed == s);
                            } else {
                                assert(out1[out1.len() - 1].seed == s);
                            }
                        }
                    }
                }
                out.push(m);
            } else {
                proof {
                    assert forall|s: u32|
                        #[trigger] acc_contains(out@, s) <==> ((exists|k0: int|
                            0 <= k0 < j + 1 && (#[trigger] acc@[k0]).seed == s) && entry_kept(
                            files@,
                            s,
                        )) by {
                        if (exists|k0: int| 0 <= k0 < j + 1 && (#[trigger] acc@[k0]).seed == s)
                            && entry_kept(files@, s) {
                            let k0 = choose|k0: int|
                                0 <= k0 < j + 1 && (#[trigger] acc@[k0]).seed == s;
                            if k0 == j {
                                // this seed's entry was just dropped, and no
                                // other accumulator slot holds the same seed
                                assert(false);
                            }
                        }
                    }
                }
            }
            j = j + 1;
        }
        let r = Maps { maps: out };
        proof {
            assert forall|seed: u32| r.contains_seed(seed) <==> entry_kept(files@, seed) by {
                assert(acc_contains(out@, seed) == r.contains_seed(seed));
                if entry_kept(files@, seed) {
                    assert(last_url(files@, seed, FileKind::Ron) is Some);
                    assert(acc_contains(acc@, seed));
                }
            }
            assert forall|k: int| 0 <= k < r.maps@.len() implies {
                let m = #[trigger] r.maps@[k];
                &&& m.data_url@ == last_url(files@, m.seed, FileKind::Ron)->0
                &&& m.image_url@ == media_url_of(last_url(files@, m.seed, FileKind::Png)->0)
            } by {
                let m = r.maps@[k];
                let k0 = choose|k0: int| 0 <= k0 < acc@.len() && acc@[k0] == out@[k];
                assert(acc_entry_ok(acc@[k0], files@));
                assert(acc_contains(out@, m.seed)) by {
                    assert(out@[k].seed == m.seed);
                }
                assert(entry_kept(files@, m.seed));
            }
        }
        r
    }

    /// Looks a seed up in the directory.
    pub fn find(&self, seed: u32) -> (r: Option<&MapMeta>)
        ensures
            match r {
                Some(m) => self.contains_seed(seed) && m.seed == seed && exists|i: int|
                    0 <= i < self.maps@.len() && self.maps@[i] == *m,
                None => !self.contains_seed(seed),
            },
    {
        let mut i: usize = 0;
        while i < self.maps.len()
            invariant
                i <= self.maps@.len(),
                forall|k: int| 0 <= k < i ==> (#[trigger] self.maps@[k]).seed != seed,
            decreases self.maps@.len() - i,
        {
            if self.maps[i].seed == seed {
                return Some(&self.maps[i]);
            }
            i = i + 1;
        }
        None
    }

    /// The directory `build` returns for a listing: exactly the kept seeds,
    /// each entry holding the last configuration URL and the media rewrite of
    /// the last image URL given for its seed.
    pub open spec fn is_directory_of(&self, files: Seq<ListedFile>) -> bool {
        &&& self.wf()
        &&& forall|seed: u32| self.contains_seed(seed) <==> entry_kept(files, seed)
        &&& forall|k: int|
            0 <= k < self.maps@.len() ==> {
                let m = #[trigger] self.maps@[k];
                &&& m.data_url@ == last_url(files, m.seed, FileKind::Ron)->0
                &&& m.image_url@ == media_url_of(last_url(files, m.seed, FileKind::Png)->0)
            }
    }
}

} // verus!
