//! The document assembler: builds the output container in memory — title,
//! one shared stylesheet, then one image resource and one titled page per
//! descriptor, in sequence order — and serializes it to bytes. The
//! container format itself is the builder crate's business; what goes into
//! it, and in what order, is decided and proved here.

use vstd::prelude::*;
use vstd::string::StrSliceExecFns;
use vstd::string::StringSliceAdditionalSpecFns;
use vstd::string::StringExecFns;

use crate::pipeline::ImgInfo;
use crate::text::replace_all;
use crate::text::spec_replace;

verus! {

#[verifier::external_type_specification]
#[verifier::external_body]
pub struct ExZipLibrary(epub_builder::ZipLibrary);

/// The builder for the output container, writing into memory. It wraps
/// the builder crate's own type, which Verus cannot take as it stands:
/// its generic parameter is bounded by a trait the crate keeps private.
#[verifier::external_body]
pub struct DocBuilder {
    inner: epub_builder::EpubBuilder<epub_builder::ZipLibrary>,
}

/// The title the builder holds.
pub uninterp spec fn epub_title(b: DocBuilder) -> Seq<char>;

/// The resources the builder holds, in insertion order: path and bytes.
pub uninterp spec fn epub_resources(b: DocBuilder) -> Seq<(Seq<char>, Seq<u8>)>;

/// The pages the builder holds, in insertion order: path, title and
/// XHTML text.
pub uninterp spec fn epub_pages(b: DocBuilder) -> Seq<(Seq<char>, Seq<char>, Seq<char>)>;

/// One builder state: its title, its resources and its pages.
pub open spec fn builder_state(b: DocBuilder, title: Seq<char>, res: Seq<(Seq<char>, Seq<u8>)>, pages: Seq<(Seq<char>, Seq<char>, Seq<char>)>) -> bool {
    epub_title(b) == title && epub_resources(b) == res && epub_pages(b) == pages
}

/// A path the container takes without question: modest in length (the
/// container stores each entry name's byte length in a 16-bit field) and
/// free of `'\\'`, which the writer folds into `'/'` on some platforms.
pub open spec fn container_safe_path(p: Seq<char>) -> bool {
    p.len() <= 4000 && (forall|i: int| 0 <= i < p.len() ==> p[i] != '\\')
}

/// No resource and no page of the builder is filed under `path`.
pub open spec fn path_unused(b: DocBuilder, path: Seq<char>) -> bool {
    (forall|i: int|
        0 <= i < epub_resources(b).len() ==> (#[trigger] epub_resources(b)[i]).0 != path) && (
    forall|i: int|
        0 <= i < epub_pages(b).len() ==> (#[trigger] epub_pages(b)[i]).0 != path)
}

/// The entry names that finalizing files beside the document's own.
pub open spec fn reserved_entry(p: Seq<char>) -> bool {
    p == "stylesheet.css"@ || p == "content.opf"@ || p == "toc.ncx"@ || p == "nav.xhtml"@
}

/// A builder that finalizing is sure to accept: a document of modest
/// size whose entry names stay clear of the ones the finalizer adds.
pub open spec fn ready_to_generate(b: DocBuilder) -> bool {
    let rs = epub_resources(b);
    let ps = epub_pages(b);
    epub_title(b).len() <= 4000 && rs.len() + ps.len() <= 20000 && (forall|i: int|
        0 <= i < rs.len() ==> container_safe_path((#[trigger] rs[i]).0) && !reserved_entry(
            rs[i].0,
        )) && (forall|i: int|
        0 <= i < ps.len() ==> container_safe_path((#[trigger] ps[i]).0) && !reserved_entry(ps[i].0)
            && ps[i].1.len() <= 4000)
}

/// Relies on `epub_builder::ZipLibrary::new`: a fresh writer over an
/// in-memory buffer, whose one fixed first entry cannot collide and
/// whose writes cannot fail, so creation always succeeds.
#[verifier::external_body]
fn zip_library_new() -> (r: Result<epub_builder::ZipLibrary, String>)
    ensures
        r is Ok,
{
    epub_builder::ZipLibrary::new().map_err(|e| format!("{}", e))
}

/// Relies on `epub_builder::EpubBuilder::new`: a fresh builder holds no
/// title, no resources and no pages. It files two fixed entries into
/// the fresh in-memory writer, which cannot collide with its one prior
/// entry and cannot fail, so creation always succeeds.
#[verifier::external_body]
fn epub_new(z: epub_builder::ZipLibrary) -> (r: Result<DocBuilder, String>)
    ensures
        r is Ok,
        r matches Ok(b) ==> builder_state(b, Seq::empty(), Seq::empty(), Seq::empty()),
{
    match epub_builder::EpubBuilder::new(z) {
        Ok(inner) => Ok(DocBuilder { inner }),
        Err(e) => Err(format!("{}", e)),
    }
}

/// Relies on `epub_builder::EpubBuilder::set_title`: it stores the title
/// and touches neither resources nor pages.
#[verifier::external_body]
fn epub_set_title(b: &mut DocBuilder, title: &str)
    ensures
        epub_title(*final(b)) == title@,
        epub_resources(*final(b)) == epub_resources(*old(b)),
        epub_pages(*final(b)) == epub_pages(*old(b)),
{
    b.inner.set_title(title);
}

/// Relies on `epub_builder::EpubBuilder::add_resource`: on success the
/// given bytes are filed under the given path, after everything already
/// added; the title and the pages are untouched. Writing into memory,
/// the call's only refusals are a duplicate entry name and an entry too
/// large for the container, so it succeeds on a safe, fresh path with
/// bounded bytes. The length bound in `requires` keeps the name's UTF-8
/// form within the container's 16-bit name field, which it fills with
/// an unchecked conversion.
#[verifier::external_body]
fn epub_add_resource(b: &mut DocBuilder, path: &str, data: &Vec<u8>, mime: &str) -> (r: Result<(), String>)
    requires
        path@.len() <= 4000,
    ensures
        r is Ok ==> builder_state(*final(b), epub_title(*old(b)), epub_resources(*old(b)).push((path@, data@)), epub_pages(*old(b))),
        container_safe_path(path@) && path_unused(*old(b), path@) && data@.len() < 0x80000000 ==> r is Ok,
{
    match b.inner.add_resource(path, std::io::Cursor::new(data.clone()), mime) {
        Ok(_) => Ok(()),
        Err(e) => Err(format!("{}", e)),
    }
}

/// Relies on `epub_builder::EpubBuilder::add_content` with an
/// `epub_builder::EpubContent` carrying a title and the text reference
/// type: on success one more section stands after the existing ones; the
/// title and the resources are untouched. As with resources, the only
/// refusals are a duplicate entry name and oversize text, so the call
/// succeeds on a safe, fresh path with bounded text; the `requires`
/// keeps the name within the container's 16-bit name field.
#[verifier::external_body]
fn epub_add_page(b: &mut DocBuilder, path: &str, title: &str, content: &str) -> (r: Result<(), String>)
    requires
        path@.len() <= 4000,
    ensures
        r is Ok ==> builder_state(*final(b), epub_title(*old(b)), epub_resources(*old(b)), epub_pages(*old(b)).push((path@, title@, content@))),
        container_safe_path(path@) && path_unused(*old(b), path@) && content@.len() <= 0x3FFFFFF0 ==> r is Ok,
{
    let c = epub_builder::EpubContent::new(path, content.as_bytes()).title(title).reftype(
        epub_builder::ReferenceType::Text,
    );
    match b.inner.add_content(c) {
        Ok(_) => Ok(()),
        Err(e) => Err(format!("{}", e)),
    }
}

/// Relies on `epub_builder::EpubBuilder::generate`: serializes the
/// document into bytes. The container timestamps its entries and names
/// a fresh random identifier, so the bytes are not a function of the
/// document alone and nothing is claimed of them. Finalizing renders
/// three fixed templates, files its four fixed entries and closes the
/// in-memory archive; on a modest document whose names avoid those
/// entries nothing can refuse, so it succeeds.
#[verifier::external_body]
fn epub_generate(b: DocBuilder) -> (r: Result<Vec<u8>, String>)
    ensures
        ready_to_generate(b) ==> r is Ok,
{
    let mut out: Vec<u8> = Vec::new();
    match b.inner.generate(&mut out) {
        Ok(()) => Ok(out),
        Err(e) => Err(format!("{}", e)),
    }
}

/// The shared stylesheet, bundled with the library.
pub open spec fn spec_stylesheet_bytes() -> Seq<u8> {
    ("img { max-width: 100%; height: auto; } body { margin: 0; text-align: center; }").spec_bytes()
}

/// The shared stylesheet's text.
pub fn stylesheet() -> (r: &'static str)
    ensures
        r.spec_bytes() == spec_stylesheet_bytes(),
{
    "img { max-width: 100%; height: auto; } body { margin: 0; text-align: center; }"
}

/// The page template, bundled with the library: one title placeholder and
/// one image placeholder, substituted for each page.
pub open spec fn spec_page_template() -> Seq<char> {
    (
    "<?xml version=\"1.0\" encoding=\"utf-8\"?><html xmlns=\"http://www.w3.org/1999/xhtml\"><head><title>#{title}</title><link rel=\"stylesheet\" type=\"text/css\" href=\"../book.css\"/></head><body><div class=\"page\"><img src=\"#{image}\" alt=\"#{title}\"/></div></body></html>"
    )@
}

/// The page template's text.
pub fn page_template() -> (r: &'static str)
    ensures
        r@ == spec_page_template(),
{
    "<?xml version=\"1.0\" encoding=\"utf-8\"?><html xmlns=\"http://www.w3.org/1999/xhtml\"><head><title>#{title}</title><link rel=\"stylesheet\" type=\"text/css\" href=\"../book.css\"/></head><body><div class=\"page\"><img src=\"#{image}\" alt=\"#{title}\"/></div></body></html>"
}

/// Renders one page: the bundled template with every title placeholder
/// replaced by `title` and every image placeholder by `image`.
pub fn replace_template_val(title: &str, image: &str) -> (r: String)
    ensures
        r@ == spec_replace(spec_replace(spec_page_template(), "#{title}"@, title@), "#{image}"@, image@),
{
    proof {
        reveal_strlit("#{title}");
        reveal_strlit("#{image}");
    }
    let half = replace_all(page_template(), "#{title}", title);
    replace_all(half.as_str(), "#{image}", image)
}

/// A rendered page: the template with the title placeholder replaced by
/// the display name and the image placeholder by the image reference.
pub open spec fn spec_rendered_page(n: Seq<char>) -> Seq<char> {
    spec_replace(
        spec_replace(spec_page_template(), "#{title}"@, n),
        "#{image}"@,
        "../images/"@ + n + ".jpg"@,
    )
}

/// The resources of the finished document: the shared stylesheet first,
/// then one image resource per descriptor, named from its display name,
/// holding its transcoded bytes.
pub open spec fn spec_resource_list(images: Seq<ImgInfo>, data: Seq<Vec<u8>>) -> Seq<
    (Seq<char>, Seq<u8>),
> {
    seq![("book.css"@, spec_stylesheet_bytes())] + Seq::new(
        images.len(),
        |i: int| ("images/"@ + images[i].display() + ".jpg"@, data[i]@),
    )
}

/// The pages of the finished document: one per descriptor, in sequence
/// order, titled with its display name and holding its rendered template.
pub open spec fn spec_page_list(images: Seq<ImgInfo>) -> Seq<(Seq<char>, Seq<char>, Seq<char>)> {
    Seq::new(
        images.len(),
        |i: int|
            (
                "text/"@ + images[i].display() + ".html"@,
                images[i].display(),
                spec_rendered_page(images[i].display()),
            ),
    )
}

/// Why assembly failed.
#[derive(Debug)]
pub enum EpubError {
    /// A descriptor's target has no file name to title its page with.
    MissingName { index: usize },
    /// The container refused an operation, or an entry name was too
    /// large for its name field.
    Container { message: String },
}

/// A display name the assembler is sure of: present, of modest size and
/// free of `'\\'`.
pub open spec fn safe_display(n: Seq<char>) -> bool {
    0 < n.len() <= 500 && (forall|k: int| 0 <= k < n.len() ==> n[k] != '\\')
}

/// Descriptors the assembler is sure to accept: every target carries a
/// safe file name and no two descriptors share one.
pub open spec fn spec_assemblable(images: Seq<ImgInfo>) -> bool {
    (forall|i: int| 0 <= i < images.len() ==> safe_display(#[trigger] images[i].display())) && (
    forall|i: int, j: int|
        #![trigger images[i].display(), images[j].display()]
        0 <= i < j < images.len() ==> images[i].display() != images[j].display())
}

/// The inputs on which assembly is owed to succeed: acceptable
/// descriptors, a document of modest size, and image data the container
/// can file.
pub open spec fn spec_assembly_succeeds(
    images: Seq<ImgInfo>,
    data: Seq<Vec<u8>>,
    file_name: Seq<char>,
) -> bool {
    spec_assemblable(images) && images.len() <= 9000 && file_name.len() <= 4000 && (forall|i: int|
        0 <= i < data.len() ==> (#[trigger] data[i])@.len() < 0x80000000)
}

/// The image resource path of a descriptor at step `i` is fresh: safe for
/// the container and unlike every entry the builder holds so far.
proof fn lemma_image_path_fresh(
    images: Seq<ImgInfo>,
    data: Seq<Vec<u8>>,
    b: DocBuilder,
    i: int,
    rname: Seq<char>,
)
    requires
        spec_assemblable(images),
        0 <= i < images.len(),
        images.len() == data.len(),
        epub_resources(b) == spec_resource_list(images, data).take(i + 1),
        epub_pages(b) == spec_page_list(images).take(i),
        rname == "images/"@ + images[i].display() + ".jpg"@,
    ensures
        container_safe_path(rname),
        path_unused(b, rname),
{
    reveal_strlit("images/");
    reveal_strlit(".jpg");
    reveal_strlit("book.css");
    reveal_strlit("text/");
    let n = images[i].display();
    assert(safe_display(n));
    assert(rname.len() == 11 + n.len());
    assert forall|k: int| 0 <= k < rname.len() implies rname[k] != '\\' by {
        if k < 7 {
            assert(rname[k] == "images/"@[k]);
        } else if k < 7 + n.len() {
            assert(rname[k] == n[k - 7]);
        } else {
            assert(rname[k] == ".jpg"@[k - 7 - n.len()]);
        }
    }
    let rs = epub_resources(b);
    assert forall|k: int| 0 <= k < rs.len() implies (#[trigger] rs[k]).0 != rname by {
        if k == 0 {
            assert(rs[0].0 == "book.css"@);
            assert(rs[0].0.len() == 8);
        } else {
            let nk = images[k - 1].display();
            assert(rs[k].0 == "images/"@ + nk + ".jpg"@);
            if rs[k].0 == rname {
                crate::text::lemma_concat_affix_injective("images/"@, nk, n, ".jpg"@);
                assert(false);
            }
        }
    }
    let ps = epub_pages(b);
    assert forall|k: int| 0 <= k < ps.len() implies (#[trigger] ps[k]).0 != rname by {
        assert(ps[k].0 == "text/"@ + images[k].display() + ".html"@);
        assert(("text/"@ + images[k].display() + ".html"@)[0] == "text/"@[0]);
        assert(rname[0] == "images/"@[0]);
    }
}

/// The page path of a descriptor at step `i` is fresh once its image
/// resource is in: safe for the container and unlike every entry so far.
proof fn lemma_page_path_fresh(
    images: Seq<ImgInfo>,
    data: Seq<Vec<u8>>,
    b: DocBuilder,
    i: int,
    ppath: Seq<char>,
)
    requires
        spec_assemblable(images),
        0 <= i < images.len(),
        images.len() == data.len(),
        epub_resources(b) == spec_resource_list(images, data).take(i + 2),
        epub_pages(b) == spec_page_list(images).take(i),
        ppath == "text/"@ + images[i].display() + ".html"@,
    ensures
        container_safe_path(ppath),
        path_unused(b, ppath),
{
    reveal_strlit("images/");
    reveal_strlit(".html");
    reveal_strlit("book.css");
    reveal_strlit("text/");
    let n = images[i].display();
    assert(safe_display(n));
    assert(ppath.len() == 10 + n.len());
    assert(ppath[0] == "text/"@[0]);
    assert forall|k: int| 0 <= k < ppath.len() implies ppath[k] != '\\' by {
        if k < 5 {
            assert(ppath[k] == "text/"@[k]);
        } else if k < 5 + n.len() {
            assert(ppath[k] == n[k - 5]);
        } else {
            assert(ppath[k] == ".html"@[k - 5 - n.len()]);
        }
    }
    let rs = epub_resources(b);
    assert forall|k: int| 0 <= k < rs.len() implies (#[trigger] rs[k]).0 != ppath by {
        if k == 0 {
            assert(rs[0].0 == "book.css"@);
            assert(rs[0].0[0] == "book.css"@[0]);
        } else {
            assert(rs[k].0 == "images/"@ + images[k - 1].display() + ".jpg"@);
            assert(("images/"@ + images[k - 1].display() + ".jpg"@)[0] == "images/"@[0]);
        }
    }
    let ps = epub_pages(b);
    assert forall|k: int| 0 <= k < ps.len() implies (#[trigger] ps[k]).0 != ppath by {
        let nk = images[k].display();
        assert(ps[k].0 == "text/"@ + nk + ".html"@);
        if ps[k].0 == ppath {
            crate::text::lemma_concat_affix_injective("text/"@, nk, n, ".html"@);
            assert(false);
        }
    }
}

/// A rendered page stays well within the container's size limits for any
/// modest display name.
proof fn lemma_rendered_page_len(n: Seq<char>)
    requires
        n.len() <= 500,
    ensures
        spec_rendered_page(n).len() <= 0x3FFFFFF0,
{
    reveal_strlit(
        "<?xml version=\"1.0\" encoding=\"utf-8\"?><html xmlns=\"http://www.w3.org/1999/xhtml\"><head><title>#{title}</title><link rel=\"stylesheet\" type=\"text/css\" href=\"../book.css\"/></head><body><div class=\"page\"><img src=\"#{image}\" alt=\"#{title}\"/></div></body></html>",
    );
    reveal_strlit("../images/");
    reveal_strlit(".jpg");
    let t = spec_page_template();
    let ir = "../images/"@ + n + ".jpg"@;
    let l1 = spec_replace(t, "#{title}"@, n);
    crate::text::lemma_replace_len_bound(t, "#{title}"@, n);
    crate::text::lemma_replace_len_bound(l1, "#{image}"@, ir);
    assert(t.len() <= 300);
    assert(ir.len() <= 514);
    let al = l1.len() as int;
    let rl = spec_rendered_page(n).len() as int;
    assert(al <= 300 * 501) by (nonlinear_arith)
        requires
            al <= t.len() * (1 + n.len()),
            t.len() <= 300,
            n.len() <= 500,
    ;
    assert(rl <= 150300 * 515) by (nonlinear_arith)
        requires
            rl <= al * (1 + ir.len()),
            0 <= al <= 150300,
            ir.len() <= 514,
    ;
}

/// A finished document of acceptable descriptors is one the finalizer
/// takes: modest in size, every entry safe and clear of the names the
/// finalizer adds.
proof fn lemma_document_ready(
    images: Seq<ImgInfo>,
    data: Seq<Vec<u8>>,
    file_name: Seq<char>,
    b: DocBuilder,
)
    requires
        spec_assemblable(images),
        images.len() <= 9000,
        file_name.len() <= 4000,
        images.len() == data.len(),
        epub_title(b) == file_name,
        epub_resources(b) == spec_resource_list(images, data),
        epub_pages(b) == spec_page_list(images),
    ensures
        ready_to_generate(b),
{
    reveal_strlit("images/");
    reveal_strlit(".jpg");
    reveal_strlit("text/");
    reveal_strlit(".html");
    reveal_strlit("book.css");
    reveal_strlit("stylesheet.css");
    reveal_strlit("content.opf");
    reveal_strlit("toc.ncx");
    reveal_strlit("nav.xhtml");
    let rs = epub_resources(b);
    let ps = epub_pages(b);
    assert(rs.len() == images.len() + 1);
    assert(ps.len() == images.len());
    assert forall|k: int| 0 <= k < rs.len() implies container_safe_path((#[trigger] rs[k]).0)
        && !reserved_entry(rs[k].0) by {
        if k == 0 {
            assert(rs[0].0 == "book.css"@);
            assert forall|j: int| 0 <= j < "book.css"@.len() implies "book.css"@[j] != '\\' by {}
        } else {
            let n = images[k - 1].display();
            assert(safe_display(n));
            let p = "images/"@ + n + ".jpg"@;
            assert(rs[k].0 == p);
            assert(p.len() == 11 + n.len());
            assert forall|j: int| 0 <= j < p.len() implies p[j] != '\\' by {
                if j < 7 {
                    assert(p[j] == "images/"@[j]);
                } else if j < 7 + n.len() {
                    assert(p[j] == n[j - 7]);
                } else {
                    assert(p[j] == ".jpg"@[j - 7 - n.len()]);
                }
            }
            assert(p[0] == "images/"@[0]);
        }
    }
    assert forall|k: int| 0 <= k < ps.len() implies container_safe_path((#[trigger] ps[k]).0)
        && !reserved_entry(ps[k].0) && ps[k].1.len() <= 4000 by {
        let n = images[k].display();
        assert(safe_display(n));
        let p = "text/"@ + n + ".html"@;
        assert(ps[k].0 == p);
        assert(ps[k].1 == n);
        assert(p.len() == 10 + n.len());
        assert forall|j: int| 0 <= j < p.len() implies p[j] != '\\' by {
            if j < 5 {
                assert(p[j] == "text/"@[j]);
            } else if j < 5 + n.len() {
                assert(p[j] == n[j - 5]);
            } else {
                assert(p[j] == ".html"@[j - 5 - n.len()]);
            }
        }
        assert(p[0] == "text/"@[0]);
        assert(p[1] == "text/"@[1]);
    }
}

/// Pages stand in descriptor order: page `i` of the assembled document is
/// titled with descriptor `i`'s display name. With `preserve_order` set
/// the descriptors are sorted by source path first, so the page sequence
/// follows the lexicographic order of the original source paths; without
/// it, the lister's emission order is kept unchanged.
pub proof fn lemma_pages_in_descriptor_order(images: Seq<ImgInfo>)
    ensures
        spec_page_list(images).len() == images.len(),
        forall|i: int| 0 <= i < images.len() ==> (#[trigger] spec_page_list(images)[i]).1
            == images[i].display(),
{
}

/// An empty descriptor sequence yields a document holding the shared
/// stylesheet as its only resource and no pages at all — and assembling
/// it is owed to succeed under any modest title.
pub proof fn lemma_empty_document()
    ensures
        spec_page_list(Seq::empty()).len() == 0,
        spec_resource_list(Seq::empty(), Seq::empty()) =~= seq![
            ("book.css"@, spec_stylesheet_bytes()),
        ],
        forall|file_name: Seq<char>|
            file_name.len() <= 4000 ==> #[trigger] spec_assembly_succeeds(
                Seq::empty(),
                Seq::empty(),
                file_name,
            ),
{
}

/// For an archive holding only non-image entries the pipeline stages no
/// descriptor at all, and assembling the empty sequence is owed to
/// succeed, yielding a document whose only resource is the shared
/// stylesheet, with no pages.
pub proof fn lemma_non_image_archive(dir: Seq<char>, names: Seq<Seq<char>>)
    requires
        forall|i: int|
            0 <= i < names.len() ==> !crate::extract::spec_is_image_path(
                crate::extract::spec_join(dir, #[trigger] names[i]),
            ),
    ensures
        crate::extract::spec_staged_origins(dir, names).len() == 0,
        spec_page_list(Seq::empty()).len() == 0,
        spec_resource_list(Seq::empty(), Seq::empty()) =~= seq![
            ("book.css"@, spec_stylesheet_bytes()),
        ],
        forall|file_name: Seq<char>|
            file_name.len() <= 4000 ==> #[trigger] spec_assembly_succeeds(
                Seq::empty(),
                Seq::empty(),
                file_name,
            ),
{
    crate::extract::lemma_no_images_no_descriptors(dir, names);
    lemma_empty_document();
}

/// Builds the document in memory: sets the title, adds the stylesheet
/// once, then one image resource and one titled page per descriptor, in
/// sequence order. Fails on the first descriptor whose target has no
/// file name or a name too large for the container, and on the first
/// container error; on acceptable descriptors of modest number, success
/// is owed.
pub fn build_document(images: &Vec<ImgInfo>, data: &Vec<Vec<u8>>, file_name: &str) -> (r: Result<DocBuilder, EpubError>)
    requires
        images@.len() == data@.len(),
    ensures
        r matches Ok(b) ==> epub_title(b) == file_name@ && epub_resources(b) == spec_resource_list(
            images@,
            data@,
        ) && epub_pages(b) == spec_page_list(images@) && (forall|i: int|
            0 <= i < images@.len() ==> (#[trigger] images@[i]).display().len() > 0),
        r matches Err(e) ==> (e matches EpubError::MissingName { index } ==> index < images@.len()
            && images@[index as int].display().len() == 0 && (forall|k: int|
            0 <= k < index ==> (#[trigger] images@[k]).display().len() > 0)),
        spec_assembly_succeeds(images@, data@, file_name@) ==> r is Ok,
{
    let zl = match zip_library_new() {
        Ok(z) => z,
        Err(m) => return Err(EpubError::Container { message: m }),
    };
    let mut b = match epub_new(zl) {
        Ok(x) => x,
        Err(m) => return Err(EpubError::Container { message: m }),
    };
    epub_set_title(&mut b, file_name);
    let css: Vec<u8> = stylesheet().as_bytes_vec();
    proof {
        reveal_strlit("book.css");
        reveal_strlit(
            "img { max-width: 100%; height: auto; } body { margin: 0; text-align: center; }",
        );
        crate::text::lemma_encode_utf8_len(
            ("img { max-width: 100%; height: auto; } body { margin: 0; text-align: center; }")@,
        );
        assert(css@.len() < 0x80000000);
        assert(container_safe_path("book.css"@));
        assert(path_unused(b, "book.css"@));
    }
    match epub_add_resource(&mut b, "book.css", &css, "text/css") {
        Ok(()) => (),
        Err(m) => return Err(EpubError::Container { message: m }),
    }
    let mut i: usize = 0;
    proof {
        assert(epub_resources(b) =~= spec_resource_list(images@, data@).take(1));
        assert(epub_pages(b) =~= spec_page_list(images@).take(0));
    }
    while i < images.len()
        invariant
            i <= images@.len(),
            images@.len() == data@.len(),
            epub_title(b) == file_name@,
            epub_resources(b) == spec_resource_list(images@, data@).take(i as int + 1),
            epub_pages(b) == spec_page_list(images@).take(i as int),
            forall|k: int| 0 <= k < i ==> (#[trigger] images@[k]).display().len() > 0,
        decreases images@.len() - i,
    {
        let name = images[i].display_name();
        let name_len: usize = name.unicode_len();
        if name_len == 0 {
            return Err(EpubError::MissingName { index: i });
        }
        if name_len > 3900 {
            return Err(
                EpubError::Container {
                    message: String::from_str("an image file name is too long for the container"),
                },
            );
        }
        proof {
            reveal_strlit("images/");
            reveal_strlit(".jpg");
            reveal_strlit("../images/");
            reveal_strlit("text/");
            reveal_strlit(".html");
        }
        let mut rname: String = String::from_str("images/");
        rname.append(name.as_str());
        rname.append(".jpg");
        proof {
            if spec_assembly_succeeds(images@, data@, file_name@) {
                lemma_image_path_fresh(images@, data@, b, i as int, rname@);
                assert(data@[i as int]@.len() < 0x80000000);
            }
        }
        match epub_add_resource(&mut b, rname.as_str(), &data[i], "image/jpeg") {
            Ok(()) => (),
            Err(m) => return Err(EpubError::Container { message: m }),
        }
        let mut iref: String = String::from_str("../images/");
        iref.append(name.as_str());
        iref.append(".jpg");
        let content = replace_template_val(name.as_str(), iref.as_str());
        let mut ppath: String = String::from_str("text/");
        ppath.append(name.as_str());
        ppath.append(".html");
        proof {
            assert(spec_resource_list(images@, data@).take(i as int + 2)
                =~= spec_resource_list(images@, data@).take(i as int + 1).push(
                (rname@, data@[i as int]@),
            ));
            if spec_assembly_succeeds(images@, data@, file_name@) {
                lemma_page_path_fresh(images@, data@, b, i as int, ppath@);
                lemma_rendered_page_len(name@);
                assert(content@ == spec_rendered_page(name@));
            }
        }
        match epub_add_page(&mut b, ppath.as_str(), name.as_str(), content.as_str()) {
            Ok(()) => (),
            Err(m) => return Err(EpubError::Container { message: m }),
        }
        proof {
            assert(spec_resource_list(images@, data@).take(i as int + 2)
                =~= spec_resource_list(images@, data@).take(i as int + 1).push(
                (rname@, data@[i as int]@),
            ));
            assert(spec_page_list(images@).take(i as int + 1) =~= spec_page_list(images@).take(
                i as int,
            ).push((ppath@, name@, content@)));
        }
        i = i + 1;
    }
    proof {
        assert(spec_resource_list(images@, data@).take(images@.len() as int + 1)
            =~= spec_resource_list(images@, data@));
        assert(spec_page_list(images@).take(images@.len() as int) =~= spec_page_list(images@));
    }
    Ok(b)
}

/// Assembles the document and serializes it: the finalized container's
/// bytes, produced only after every page has been added. On acceptable
/// descriptors of modest number — each target with a file name of its
/// own, none shared — success is owed.
pub fn create_epub(images: &Vec<ImgInfo>, data: &Vec<Vec<u8>>, file_name: &str) -> (r: Result<Vec<u8>, EpubError>)
    requires
        images@.len() == data@.len(),
    ensures
        r is Ok ==> (forall|i: int|
            0 <= i < images@.len() ==> (#[trigger] images@[i]).display().len() > 0),
        r matches Err(e) ==> (e matches EpubError::MissingName { index } ==> index < images@.len()
            && images@[index as int].display().len() == 0 && (forall|k: int|
            0 <= k < index ==> (#[trigger] images@[k]).display().len() > 0)),
        spec_assembly_succeeds(images@, data@, file_name@) ==> r is Ok,
{
    let b = match build_document(images, data, file_name) {
        Ok(x) => x,
        Err(e) => return Err(e),
    };
    proof {
        if spec_assembly_succeeds(images@, data@, file_name@) {
            lemma_document_ready(images@, data@, file_name@, b);
        }
    }
    match epub_generate(b) {
        Ok(v) => Ok(v),
        Err(m) => Err(EpubError::Container { message: m }),
    }
}

} // verus!
