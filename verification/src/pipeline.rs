//! The shared item model of the conversion pipeline: one descriptor per
//! discovered image, and the ordering policy that optionally sorts the
//! descriptors by their original path before transcoding and assembly.

use vstd::prelude::*;
use vstd::seq_lib::to_multiset_insert;
use vstd::seq_lib::to_multiset_remove;
use vstd::seq_lib::to_multiset_contains;
use vstd::multiset::Multiset;
use vstd::string::StrSliceExecFns;
use vstd::string::StringExecFns;

use crate::text::last_index_of;
use crate::text::lemma_last_index_of;
use crate::text::lemma_lex_le_total;
use crate::text::lemma_lex_le_trans;
use crate::text::lex_le;
use crate::text::rfind_char;
use crate::text::spec_file_name;
use crate::text::str_le;
use crate::text::strip_slashes;
use crate::text::strip_trailing_slashes;

verus! {

/// The path with the extension of its final component replaced by `jpg`:
/// the stem keeps everything up to the last dot, unless that dot starts the
/// component (a hidden file has no extension to replace). A path without a
/// final component is left as it is.
pub open spec fn spec_with_ext_jpg(s: Seq<char>) -> Seq<char> {
    let t = strip_trailing_slashes(s);
    let name = spec_file_name(s);
    if name.len() == 0 {
        s
    } else {
        let d = last_index_of(name, '.');
        let stem = if d > 0 {
            name.subrange(0, d)
        } else {
            name
        };
        t.take(t.len() - name.len()) + stem + ".jpg"@
    }
}

/// The path with its extension normalized to `jpg`, as
/// [`spec_with_ext_jpg`] describes it.
pub fn with_ext_jpg(s: &str) -> (r: String)
    ensures
        r@ == spec_with_ext_jpg(s@),
{
    let t = strip_slashes(s);
    let tn: usize = t.unicode_len();
    let name = crate::text::file_name_of(s);
    let nn: usize = name.unicode_len();
    proof {
        lemma_last_index_of(strip_trailing_slashes(s@), '/');
    }
    if nn == 0 {
        return s.to_owned();
    }
    proof {
        lemma_last_index_of(name@, '.');
    }
    let mut out: String = t.substring_char(0, tn - nn).to_owned();
    match rfind_char(name.as_str(), '.') {
        Some(p) if p > 0 => {
            out.append(name.as_str().substring_char(0, p));
        },
        _ => {
            proof {
                assert(name@.subrange(0, nn as int) =~= name@);
            }
            out.append(name.as_str());
        },
    }
    out.append(".jpg");
    out
}

/// One discovered image: where its extracted bytes live and where the
/// transcoded bytes belong. The target is derived from the source once, at
/// creation, by normalizing the extension.
#[derive(Debug, Clone)]
pub struct ImgInfo {
    pub origin_path: String,
    pub output_path: String,
}

impl ImgInfo {
    /// The target location is exactly the source location with its
    /// extension normalized.
    pub open spec fn wf(self) -> bool {
        self.output_path@ == spec_with_ext_jpg(self.origin_path@)
    }

    /// The name a descriptor is shown under: the file name of its target.
    pub open spec fn display(self) -> Seq<char> {
        spec_file_name(self.output_path@)
    }

    pub fn build(origin_path: &str) -> (r: Self)
        ensures
            r.origin_path@ == origin_path@,
            r.wf(),
    {
        ImgInfo { origin_path: origin_path.to_owned(), output_path: with_ext_jpg(origin_path) }
    }

    /// The page title and anchor derived from the target's file name.
    pub fn display_name(&self) -> (r: String)
        ensures
            r@ == self.display(),
    {
        crate::text::file_name_of(self.output_path.as_str())
    }
}

/// Descriptors in non-decreasing order of source path.
pub open spec fn sorted_by_origin(s: Seq<ImgInfo>) -> bool {
    forall|i: int, j: int|
        0 <= i < j < s.len() ==> lex_le(#[trigger] s[i].origin_path@, #[trigger] s[j].origin_path@)
}

/// Sorts the descriptors by source path, lexicographically: afterwards the
/// sequence is ordered and holds exactly the descriptors it held before.
pub fn sort_by_origin(images: &mut Vec<ImgInfo>)
    ensures
        sorted_by_origin(final(images)@),
        final(images)@.to_multiset() == old(images)@.to_multiset(),
{
    broadcast use to_multiset_insert, to_multiset_remove, to_multiset_contains;
    broadcast use vstd::multiset::group_multiset_axioms;

    let n: usize = images.len();
    if n <= 1 {
        return ;
    }
    let mut i: usize = 1;
    while i < n
        invariant
            images.len() == n,
            1 <= i <= n,
            sorted_by_origin(images@.take(i as int)),
            images@.to_multiset() == old(images)@.to_multiset(),
        decreases n - i,
    {
        let ghost snap = images@;
        let x = images.remove(i);
        let ghost pre = images@;
        proof {
            assert(pre.take(i as int) =~= snap.take(i as int));
        }
        let mut j: usize = i;
        loop
            invariant
                j <= i,
                i < n,
                images@ == pre,
                images.len() == n - 1,
                sorted_by_origin(pre.take(i as int)),
                forall|k: int|
                    j <= k < i ==> lex_le(x.origin_path@, #[trigger] pre[k].origin_path@),
            ensures
                j <= i,
                j == 0 || lex_le(pre[j - 1].origin_path@, x.origin_path@),
                forall|k: int|
                    j <= k < i ==> lex_le(x.origin_path@, #[trigger] pre[k].origin_path@),
            decreases j,
        {
            if j == 0 {
                break ;
            }
            let before = str_le(images[j - 1].origin_path.as_str(), x.origin_path.as_str());
            if before {
                break ;
            }
            proof {
                lemma_lex_le_total(pre[j - 1].origin_path@, x.origin_path@);
            }
            j = j - 1;
        }
        images.insert(j, x);
        proof {
            let cur = images@;
            assert(snap[i as int] == x);
            assert(snap.contains(x));
            assert(pre == snap.remove(i as int));
            to_multiset_remove(snap, i as int);
            assert(pre.to_multiset() == snap.to_multiset().remove(x));
            assert(cur == pre.insert(j as int, x));
            to_multiset_insert(pre, j as int, x);
            assert(cur.to_multiset() == pre.to_multiset().insert(x));
            to_multiset_contains(snap, x);
            assert(snap.to_multiset().count(x) > 0);
            assert forall|v: ImgInfo| cur.to_multiset().count(v) == snap.to_multiset().count(
                v,
            ) by {
                if v == x {
                    assert(pre.to_multiset().count(v) == snap.to_multiset().count(v) - 1);
                    assert(cur.to_multiset().count(v) == pre.to_multiset().count(v) + 1);
                } else {
                    assert(Multiset::singleton(x).count(v) == 0);
                    assert(pre.to_multiset().count(v) == snap.to_multiset().count(v));
                    assert(cur.to_multiset().count(v) == pre.to_multiset().count(v));
                }
            }
            assert(cur.to_multiset() =~= snap.to_multiset());
            assert forall|a: int, b: int| 0 <= a < b < i + 1 implies lex_le(
                cur[a].origin_path@,
                cur[b].origin_path@,
            ) by {
                if b < j {
                    assert(pre.take(i as int)[a] == cur[a]);
                    assert(pre.take(i as int)[b] == cur[b]);
                } else if b == j {
                    // cur[b] is x; everything before position j is at most x
                    assert(cur[a] == pre.take(i as int)[a]);
                    if a < j - 1 {
                        assert(lex_le(pre[a].origin_path@, pre[j - 1].origin_path@));
                        lemma_lex_le_trans(
                            pre[a].origin_path@,
                            pre[j - 1].origin_path@,
                            x.origin_path@,
                        );
                    }
                } else {
                    // cur[b] comes from pre[b - 1]
                    assert(cur[b] == pre[b - 1]);
                    if a < j {
                        assert(cur[a] == pre.take(i as int)[a]);
                        assert(lex_le(pre[a].origin_path@, pre[b - 1].origin_path@));
                    } else if a == j {
                        assert(lex_le(x.origin_path@, pre[b - 1].origin_path@));
                    } else {
                        assert(cur[a] == pre[a - 1]);
                        assert(lex_le(pre[a - 1].origin_path@, pre[b - 1].origin_path@));
                    }
                }
            }
        }
        i = i + 1;
    }
    proof {
        if n > 0 {
            assert(images@.take(n as int) =~= images@);
        }
    }
}

/// The ordering policy: when `preserve_order` is set the descriptors are
/// put in lexicographic order of their source paths; otherwise they stay
/// exactly as the entry lister produced them.
pub fn order_images(images: &mut Vec<ImgInfo>, preserve_order: bool)
    ensures
        preserve_order ==> sorted_by_origin(final(images)@) && final(images)@.to_multiset() == old(
            images,
        )@.to_multiset(),
        !preserve_order ==> final(images)@ == old(images)@,
{
    if preserve_order {
        sort_by_origin(images);
    }
}

} // verus!
