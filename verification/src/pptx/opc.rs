//! OPC (Open Packaging Conventions) helpers: the builders for
//! `[Content_Types].xml` and `.rels` files.

use vstd::prelude::*;

use super::ns;
use super::package::{mime_spec, ContentType, PackageEntry};
use super::xml::{attr_views, close_line, leaf_line, open_tag, prolog, Xml};
use crate::text::{push_str, str_eq};

verus! {

/// One relationship inside a `.rels` file.
#[derive(Debug, Clone, PartialEq, Eq)]
pub struct Rel {
    pub id: String,
    pub kind: &'static str,
    pub target: String,
}

impl Rel {
    pub fn new(id: &str, kind: &'static str, target: &str) -> (r: Self)
        ensures
            r.id@ == id@,
            r.kind == kind,
            r.target@ == target@,
    {
        Rel { id: String::from_str(id), kind, target: String::from_str(target) }
    }
}

/// The `<Relationship>` line of one relationship.
pub open spec fn rel_line(rel: Rel) -> Seq<char> {
    leaf_line(
        1,
        "Relationship"@,
        seq![("Id"@, rel.id@), ("Type"@, rel.kind@), ("Target"@, rel.target@)],
    )
}

/// The relationship lines, in order.
pub open spec fn rel_lines(rels: Seq<Rel>) -> Seq<char>
    decreases rels.len(),
{
    if rels.len() == 0 {
        Seq::empty()
    } else {
        rel_lines(rels.drop_last()) + rel_line(rels.last())
    }
}

/// The complete text of a `.rels` part.
pub open spec fn rels_doc(rels: Seq<Rel>) -> Seq<char> {
    prolog() + open_tag(0, "Relationships"@, seq![("xmlns"@, ns::PACKAGE_REL@)]) + seq!['\n']
        + rel_lines(rels) + close_line(0, "Relationships"@)
}

/// Render a `.rels` file.
pub fn rels_xml(rels: &[Rel]) -> (s: String)
    ensures
        s@ == rels_doc(rels@),
{
    let mut xml = Xml::new();
    let root = [("xmlns", ns::PACKAGE_REL)];
    xml.start("Relationships", &root);
    assert(attr_views(root@) =~= seq![("xmlns"@, ns::PACKAGE_REL@)]);
    let ghost head = xml.content();
    let mut i: usize = 0;
    while i < rels.len()
        invariant
            i <= rels@.len(),
            xml.depth() == 1,
            xml.content() == head + rel_lines(rels@.take(i as int)),
        decreases rels.len() - i,
    {
        let rel = &rels[i];
        let attrs = [("Id", rel.id.as_str()), ("Type", rel.kind), ("Target", rel.target.as_str())];
        let ghost before = xml.content();
        xml.leaf("Relationship", &attrs);
        proof {
            assert(attr_views(attrs@) =~= seq![("Id"@, rel.id@), ("Type"@, rel.kind@), ("Target"@, rel.target@)]);
            assert(rels@.take(i + 1).drop_last() =~= rels@.take(i as int));
            assert(xml.content() =~= head + rel_lines(rels@.take(i + 1)));
        }
        i = i + 1;
    }
    assert(rels@.take(i as int) =~= rels@);
    xml.end("Relationships");
    assert(xml.content() =~= rels_doc(rels@));
    xml.into_string()
}

/// Content type of a media extension with a `Default` entry.
pub open spec fn extension_mime(ext: Seq<char>) -> Seq<char> {
    if ext == "png"@ {
        "image/png"@
    } else {
        "image/jpeg"@
    }
}

/// The `Default` line of one media extension.
pub open spec fn default_line(ext: Seq<char>) -> Seq<char> {
    leaf_line(1, "Default"@, seq![("Extension"@, ext), ("ContentType"@, extension_mime(ext))])
}

/// The `Default` entry of a media extension declares the MIME type of
/// the content type its media parts get: `image/png` for `png` and
/// `image/jpeg` for `jpg` and `jpeg`.
pub proof fn lemma_media_default_mime(ext: Seq<char>)
    ensures
        ext == "png"@ ==> default_line(ext) == leaf_line(
            1,
            "Default"@,
            seq![("Extension"@, ext), ("ContentType"@, "image/png"@)],
        ),
        ext == "jpg"@ || ext == "jpeg"@ ==> default_line(ext) == leaf_line(
            1,
            "Default"@,
            seq![("Extension"@, ext), ("ContentType"@, "image/jpeg"@)],
        ),
        ext == "png"@ ==> default_line(ext) == leaf_line(
            1,
            "Default"@,
            seq![("Extension"@, ext), ("ContentType"@, mime_spec(ContentType::ImagePng))],
        ),
        ext == "jpg"@ || ext == "jpeg"@ ==> default_line(ext) == leaf_line(
            1,
            "Default"@,
            seq![("Extension"@, ext), ("ContentType"@, mime_spec(ContentType::ImageJpeg))],
        ),
{
    reveal_strlit("png");
    reveal_strlit("jpg");
    reveal_strlit("jpeg");
    assert("jpg"@ != "png"@) by {
        assert("jpg"@[1] != "png"@[1]);
    }
    assert("jpeg"@ != "png"@) by {
        assert("jpeg"@.len() != "png"@.len());
    }
}

/// `Default` lines for the media extensions, in order.
pub open spec fn default_lines(exts: Seq<String>) -> Seq<char>
    decreases exts.len(),
{
    if exts.len() == 0 {
        Seq::empty()
    } else {
        default_lines(exts.drop_last()) + default_line(exts.last()@)
    }
}

/// The `Override` line of a typed entry (nothing for an untyped one).
pub open spec fn override_line(entry: PackageEntry) -> Seq<char> {
    match entry.content_type {
        Some(ct) => leaf_line(
            1,
            "Override"@,
            seq![("PartName"@, seq!['/'] + entry.path@), ("ContentType"@, mime_spec(ct))],
        ),
        None => Seq::empty(),
    }
}

/// `Override` lines for every typed entry, in order.
pub open spec fn override_lines(entries: Seq<PackageEntry>) -> Seq<char>
    decreases entries.len(),
{
    if entries.len() == 0 {
        Seq::empty()
    } else {
        override_lines(entries.drop_last()) + override_line(entries.last())
    }
}

/// The complete text of `[Content_Types].xml`.
pub open spec fn content_types_doc(entries: Seq<PackageEntry>, exts: Seq<String>) -> Seq<char> {
    prolog() + open_tag(0, "Types"@, seq![("xmlns"@, ns::CONTENT_TYPES@)]) + seq!['\n']
        + leaf_line(
        1,
        "Default"@,
        seq![
            ("Extension"@, "rels"@),
            ("ContentType"@, "application/vnd.openxmlformats-package.relationships+xml"@),
        ],
    ) + leaf_line(1, "Default"@, seq![("Extension"@, "xml"@), ("ContentType"@, "application/xml"@)])
        + default_lines(exts) + override_lines(entries) + close_line(0, "Types"@)
}

/// The typed entries, in order.
pub open spec fn typed_entries(entries: Seq<PackageEntry>) -> Seq<PackageEntry>
    decreases entries.len(),
{
    if entries.len() == 0 {
        Seq::empty()
    } else if entries.last().content_type is Some {
        typed_entries(entries.drop_last()).push(entries.last())
    } else {
        typed_entries(entries.drop_last())
    }
}

/// `[Content_Types].xml` has exactly one `Override` line per typed entry,
/// in order, naming `/path` and the entry's MIME type, and none for an
/// untyped entry; the `rels` and `xml` `Default`s and one `Default` per
/// media extension come before them.
pub proof fn lemma_one_override_per_typed_entry(entries: Seq<PackageEntry>, exts: Seq<String>)
    ensures
        content_types_doc(entries, exts) == prolog() + open_tag(0, "Types"@, seq![("xmlns"@, ns::CONTENT_TYPES@)])
            + seq!['\n'] + leaf_line(
            1,
            "Default"@,
            seq![
                ("Extension"@, "rels"@),
                ("ContentType"@, "application/vnd.openxmlformats-package.relationships+xml"@),
            ],
        ) + leaf_line(1, "Default"@, seq![("Extension"@, "xml"@), ("ContentType"@, "application/xml"@)])
            + default_lines(exts) + override_lines(typed_entries(entries)) + close_line(0, "Types"@),
        forall|i: int| 0 <= i < typed_entries(entries).len() ==> (#[trigger] typed_entries(entries)[i]).content_type is Some,
        forall|i: int|
            0 <= i < typed_entries(entries).len() ==> override_line(#[trigger] typed_entries(entries)[i]) == leaf_line(
                1,
                "Override"@,
                seq![
                    ("PartName"@, seq!['/'] + typed_entries(entries)[i].path@),
                    ("ContentType"@, mime_spec(typed_entries(entries)[i].content_type->0)),
                ],
            ),
        forall|e: PackageEntry| e.content_type is Some ==> (entries.contains(e) <==> typed_entries(entries).contains(e)),
    decreases entries.len(),
{
    lemma_typed_overrides(entries);
}

proof fn lemma_typed_overrides(entries: Seq<PackageEntry>)
    ensures
        override_lines(entries) == override_lines(typed_entries(entries)),
        forall|i: int| 0 <= i < typed_entries(entries).len() ==> (#[trigger] typed_entries(entries)[i]).content_type is Some,
        forall|e: PackageEntry| e.content_type is Some ==> (entries.contains(e) <==> typed_entries(entries).contains(e)),
    decreases entries.len(),
{
    if entries.len() > 0 {
        let init = entries.drop_last();
        let t0 = typed_entries(init);
        lemma_typed_overrides(init);
        assert forall|e: PackageEntry| e.content_type is Some implies (entries.contains(e) <==> typed_entries(entries).contains(e)) by {
            let te = typed_entries(entries);
            if entries.last().content_type is Some {
                assert(te == t0.push(entries.last()));
            } else {
                assert(te == t0);
            }
            assert(init.contains(e) <==> t0.contains(e));
            if entries.contains(e) {
                let k = choose|k: int| 0 <= k < entries.len() && entries[k] == e;
                if k < entries.len() - 1 {
                    assert(init[k] == e);
                    assert(init.contains(e));
                    assert(t0.contains(e));
                    let j = choose|j: int| 0 <= j < t0.len() && t0[j] == e;
                    assert(te[j] == e);
                } else {
                    assert(te[te.len() - 1] == e);
                }
                assert(te.contains(e));
            }
            if te.contains(e) {
                let j = choose|j: int| 0 <= j < te.len() && te[j] == e;
                if j < t0.len() {
                    assert(t0[j] == e);
                    assert(t0.contains(e));
                    assert(init.contains(e));
                    let k = choose|k: int| 0 <= k < init.len() && init[k] == e;
                    assert(entries[k] == e);
                } else {
                    assert(entries[entries.len() - 1] == e);
                }
                assert(entries.contains(e));
            }
        }
        if entries.last().content_type is Some {
            let t = t0.push(entries.last());
            assert(t.drop_last() =~= t0);
        } else {
            assert(override_line(entries.last()) =~= Seq::<char>::empty());
            assert(override_lines(init) + Seq::<char>::empty() =~= override_lines(init));
        }
    }
}

/// Render `[Content_Types].xml` from the package entries. Adopts the OPC
/// rule: a `Default` for the `xml` / `rels` extensions and for every media
/// extension in use, and an `Override` for every typed part.
pub fn content_types_xml(entries: &[PackageEntry], media_extensions: &[String]) -> (s: String)
    ensures
        s@ == content_types_doc(entries@, media_extensions@),
{
    let mut xml = Xml::new();
    let root = [("xmlns", ns::CONTENT_TYPES)];
    xml.start("Types", &root);
    let rels_default = [
        ("Extension", "rels"),
        ("ContentType", "application/vnd.openxmlformats-package.relationships+xml"),
    ];
    xml.leaf("Default", &rels_default);
    let xml_default = [("Extension", "xml"), ("ContentType", "application/xml")];
    xml.leaf("Default", &xml_default);
    proof {
        assert(attr_views(root@) =~= seq![("xmlns"@, ns::CONTENT_TYPES@)]);
        assert(attr_views(rels_default@) =~= seq![
            ("Extension"@, "rels"@),
            ("ContentType"@, "application/vnd.openxmlformats-package.relationships+xml"@),
        ]);
        assert(attr_views(xml_default@) =~= seq![("Extension"@, "xml"@), ("ContentType"@, "application/xml"@)]);
    }
    let ghost head = xml.content();
    let mut i: usize = 0;
    while i < media_extensions.len()
        invariant
            i <= media_extensions@.len(),
            xml.depth() == 1,
            xml.content() == head + default_lines(media_extensions@.take(i as int)),
        decreases media_extensions.len() - i,
    {
        let ext = media_extensions[i].as_str();
        proof {
            reveal_strlit("png");
        }
        let mime = if str_eq(ext, "png") {
            "image/png"
        } else {
            "image/jpeg"
        };
        let attrs = [("Extension", ext), ("ContentType", mime)];
        xml.leaf("Default", &attrs);
        proof {
            reveal_strlit("image/png");
            reveal_strlit("image/jpeg");
            assert(attr_views(attrs@) =~= seq![("Extension"@, ext@), ("ContentType"@, extension_mime(ext@))]);
            assert(media_extensions@.take(i + 1).drop_last() =~= media_extensions@.take(i as int));
            assert(xml.content() =~= head + default_lines(media_extensions@.take(i + 1)));
        }
        i = i + 1;
    }
    assert(media_extensions@.take(i as int) =~= media_extensions@);
    let ghost mid = xml.content();
    let mut j: usize = 0;
    while j < entries.len()
        invariant
            j <= entries@.len(),
            xml.depth() == 1,
            xml.content() == mid + override_lines(entries@.take(j as int)),
        decreases entries.len() - j,
    {
        let entry = &entries[j];
        if let Some(content_type) = &entry.content_type {
            proof {
                reveal_strlit("/");
            }
            let mut part_name = String::new();
            push_str(&mut part_name, "/");
            push_str(&mut part_name, entry.path.as_str());
            let mime = content_type.mime();
            assert(part_name@ =~= seq!['/'] + entry.path@);
            let attrs = [("PartName", part_name.as_str()), ("ContentType", mime)];
            xml.leaf("Override", &attrs);
            proof {
                reveal_strlit("/");
                assert(attr_views(attrs@) =~= seq![("PartName"@, seq!['/'] + entry.path@), ("ContentType"@, mime_spec(*content_type))]);
            }
        }
        proof {
            assert(entries@.take(j + 1).drop_last() =~= entries@.take(j as int));
            assert(xml.content() =~= mid + override_lines(entries@.take(j + 1)));
        }
        j = j + 1;
    }
    assert(entries@.take(j as int) =~= entries@);
    xml.end("Types");
    assert(xml.content() =~= content_types_doc(entries@, media_extensions@));
    xml.into_string()
}

} // verus!
