//! The entry lister's decisions: which archive entries qualify as images,
//! where each is staged, and which descriptors a listing produces. Reading
//! the archive and writing the staged files are the callers' side effects;
//! every decision about them is made here.

use vstd::prelude::*;
use vstd::string::StrSliceExecFns;
use vstd::string::StringExecFns;

use crate::pipeline::ImgInfo;
use crate::text::eq_ignore_ascii_case;
use crate::text::file_name_of;
use crate::text::last_index_of;
use crate::text::lemma_last_index_of;
use crate::text::rfind_char;
use crate::text::spec_file_name;
use crate::text::str_eq_ignore_case;

verus! {

/// The extension of the final path component: what follows its last dot,
/// unless the dot starts the component (a hidden file has none) or there
/// is no dot at all.
pub open spec fn spec_extension(s: Seq<char>) -> Option<Seq<char>> {
    let name = spec_file_name(s);
    let d = last_index_of(name, '.');
    if name.len() > 0 && d > 0 {
        Option::Some(name.subrange(d + 1, name.len() as int))
    } else {
        Option::None
    }
}

/// The image allow-list, up to ASCII case: jpg, jpeg, png, webp.
pub open spec fn spec_is_image_ext(e: Seq<char>) -> bool {
    ||| eq_ignore_ascii_case(e, "jpg"@)
    ||| eq_ignore_ascii_case(e, "jpeg"@)
    ||| eq_ignore_ascii_case(e, "png"@)
    ||| eq_ignore_ascii_case(e, "webp"@)
}

/// Whether a path's extension is on the image allow-list.
pub open spec fn spec_is_image_path(s: Seq<char>) -> bool {
    match spec_extension(s) {
        Option::Some(e) => spec_is_image_ext(e),
        Option::None => false,
    }
}

/// Whether the path names an image file, by its extension alone and
/// regardless of ASCII case.
pub fn is_image_file(path: &str) -> (r: bool)
    ensures
        r == spec_is_image_path(path@),
{
    let name = file_name_of(path);
    let nn: usize = name.unicode_len();
    proof {
        lemma_last_index_of(name@, '.');
    }
    match rfind_char(name.as_str(), '.') {
        Some(d) => {
            if d == 0 {
                return false;
            }
            let ext = name.as_str().substring_char(d + 1, nn);
            if str_eq_ignore_case(ext, "jpg") {
                return true;
            }
            if str_eq_ignore_case(ext, "jpeg") {
                return true;
            }
            if str_eq_ignore_case(ext, "png") {
                return true;
            }
            str_eq_ignore_case(ext, "webp")
        },
        None => false,
    }
}

/// `name` placed under `dir`, with exactly one `'/'` between the two.
pub open spec fn spec_join(dir: Seq<char>, name: Seq<char>) -> Seq<char> {
    if dir.len() == 0 {
        name
    } else if dir[dir.len() - 1] == '/' {
        dir + name
    } else {
        dir + "/"@ + name
    }
}

/// Joins an entry name onto the staging directory.
pub fn join_path(dir: &str, name: &str) -> (r: String)
    ensures
        r@ == spec_join(dir@, name@),
{
    let n: usize = dir.unicode_len();
    if n == 0 {
        return name.to_owned();
    }
    let mut out: String = dir.to_owned();
    if dir.get_char(n - 1) != '/' {
        out.append("/");
    }
    out.append(name);
    out
}

/// An archive entry whose name ends in `'/'` marks a directory.
pub open spec fn spec_entry_is_dir(name: Seq<char>) -> bool {
    name.len() > 0 && name[name.len() - 1] == '/'
}

/// What the entry lister does with one archive entry.
pub enum EntryPlan {
    /// Not an image: the entry is passed over and nothing is staged.
    Skip,
    /// A directory entry: the path is created, no descriptor is made.
    MakeDir(String),
    /// A qualifying image: its bytes belong at the descriptor's source
    /// location, and the descriptor joins the listing.
    Stage(ImgInfo),
}

/// Decides one archive entry: a qualifying image file is staged under the
/// staging directory at its mirrored relative path, a qualifying directory
/// is created, and anything else is skipped.
pub fn plan_entry(staging_dir: &str, entry_name: &str) -> (r: EntryPlan)
    ensures
        ({
            let full = spec_join(staging_dir@, entry_name@);
            if !spec_is_image_path(full) {
                r is Skip
            } else if spec_entry_is_dir(entry_name@) {
                r matches EntryPlan::MakeDir(p) && p@ == full
            } else {
                r matches EntryPlan::Stage(info) && info.origin_path@ == full && info.wf()
            }
        }),
{
    let full = join_path(staging_dir, entry_name);
    if !is_image_file(full.as_str()) {
        return EntryPlan::Skip;
    }
    let n: usize = entry_name.unicode_len();
    if n > 0 && entry_name.get_char(n - 1) == '/' {
        EntryPlan::MakeDir(full)
    } else {
        EntryPlan::Stage(ImgInfo::build(full.as_str()))
    }
}

/// The source locations that listing `names` under `dir` stages, in
/// emission order: one per qualifying image file entry.
pub open spec fn spec_staged_origins(dir: Seq<char>, names: Seq<Seq<char>>) -> Seq<Seq<char>>
    decreases names.len(),
{
    if names.len() == 0 {
        Seq::empty()
    } else {
        let rest = spec_staged_origins(dir, names.drop_last());
        let name = names.last();
        if spec_is_image_path(spec_join(dir, name)) && !spec_entry_is_dir(name) {
            rest.push(spec_join(dir, name))
        } else {
            rest
        }
    }
}

/// The descriptors that one pass over the archive's entry names produces:
/// one per qualifying image file, in emission order, each staged under the
/// staging directory.
pub fn list_images(staging_dir: &str, names: &Vec<String>) -> (r: Vec<ImgInfo>)
    ensures
        ({
            let origins = spec_staged_origins(
                staging_dir@,
                names@.map_values(|s: String| s@),
            );
            r@.len() == origins.len() && forall|i: int|
                0 <= i < r@.len() ==> (#[trigger] r@[i]).origin_path@ == origins[i] && r@[i].wf()
        }),
{
    let ghost mapped = names@.map_values(|s: String| s@);
    let mut out: Vec<ImgInfo> = Vec::new();
    let mut i: usize = 0;
    proof {
        assert(mapped.take(0) =~= Seq::<Seq<char>>::empty());
    }
    while i < names.len()
        invariant
            i <= names.len(),
            mapped == names@.map_values(|s: String| s@),
            ({
                let origins = spec_staged_origins(staging_dir@, mapped.take(i as int));
                out@.len() == origins.len() && forall|k: int|
                    0 <= k < out@.len() ==> (#[trigger] out@[k]).origin_path@ == origins[k]
                        && out@[k].wf()
            }),
        decreases names.len() - i,
    {
        proof {
            assert(mapped.take(i as int + 1).drop_last() =~= mapped.take(i as int));
            assert(mapped.take(i as int + 1).last() == names@[i as int]@);
        }
        match plan_entry(staging_dir, names[i].as_str()) {
            EntryPlan::Stage(info) => {
                out.push(info);
            },
            EntryPlan::MakeDir(_) => {
            },
            EntryPlan::Skip => {
            },
        }
        i = i + 1;
    }
    proof {
        assert(mapped.take(names@.len() as int) =~= mapped);
    }
    out
}

/// An archive that holds no qualifying image entry stages nothing: the
/// descriptor sequence of the listing is empty.
pub proof fn lemma_no_images_no_descriptors(dir: Seq<char>, names: Seq<Seq<char>>)
    requires
        forall|i: int| 0 <= i < names.len() ==> !spec_is_image_path(spec_join(dir, #[trigger] names[i])),
    ensures
        spec_staged_origins(dir, names).len() == 0,
    decreases names.len(),
{
    if names.len() > 0 {
        assert(names[names.len() - 1] == names.last());
        assert forall|i: int| 0 <= i < names.drop_last().len() implies !spec_is_image_path(
            spec_join(dir, #[trigger] names.drop_last()[i]),
        ) by {
            assert(names.drop_last()[i] == names[i]);
        }
        lemma_no_images_no_descriptors(dir, names.drop_last());
    }
}

} // verus!
