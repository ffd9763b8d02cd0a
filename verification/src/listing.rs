//! Listings of directories: the HTML index, and the XML of PROPFIND.

use vstd::prelude::*;
use vstd::utf8::encode_utf8;

use crate::conditional::{etag_for, etag_text, Meta};
use crate::date::{datetime_text, datetime_utc, http_date, http_date_text, since_epoch};
use crate::escape::{
    is_link_char, law_encoded_path_is_link, law_escaped_text_is_inert, law_percent_round_trip,
    law_xml_round_trip, percent_decoded, percent_encode_path, percent_encoded, xml_escape,
    xml_escaped, xml_unescaped,
};
use crate::mime::{mime_for, mime_type};
use crate::number::{decimal, decimal_string};
use crate::path::{extension_text, slashed, with_trailing_slash};
use crate::safe::{acceptable_entries, display_name, resources, Entry, SafePath, Served};
use crate::size::{human_size, human_size_text};
use crate::text::{lossy_text, lowered, same};

verus! {

// ---------------------------------------------------------------------------
// The HTML index
// ---------------------------------------------------------------------------
/// The index up to its title.
pub const INDEX_START: &'static str = r#"<!DOCTYPE html>
<html lang="en"><head><meta charset="utf-8"><meta name="viewport" content="width=device-width, initial-scale=1"><title translate="no">Index of "#;

/// The index from the end of its title to its script. What names paths and data is
/// marked as not to be translated.
pub const INDEX_STYLE: &'static str = r#"</title><style>body{font-family:sans-serif}td,th{text-align:left;padding:0 1.5rem 0 0}tbody th{font-weight:normal}</style>"#;

/// A script that sorts the rows in the browser: directories first, by name in
/// natural order, the parent at the top. Without it the rows stay as they are sent,
/// in the order of the filesystem.
pub const SORT_SCRIPT: &'static str = r#"<script>
addEventListener('DOMContentLoaded', () => {
  const tb = document.querySelector('tbody');
  if (!tb) return;
  const a = r => r.querySelector('a');
  const rows = [...tb.rows];
  const up = rows.find(r => a(r).getAttribute('href') === '../');
  const dir = r => a(r).getAttribute('href').endsWith('/') ? 0 : 1;
  const items = rows.filter(r => r !== up).sort((x, y) =>
    dir(x) - dir(y) ||
    a(x).textContent.localeCompare(a(y).textContent, undefined, {sensitivity: 'base', numeric: true}));
  tb.replaceChildren(...(up ? [up] : []), ...items);
});
</script>"#;

/// The index from its script to its heading.
pub const INDEX_HEADING: &'static str = r#"</head><body><h1 id="t">Index of <span translate="no">"#;

/// The index from the end of its heading to its first row.
pub const INDEX_TABLE: &'static str = r#"</span></h1><table aria-labelledby="t"><thead><tr><th scope="col">Name</th><th scope="col">Last modified (UTC)</th><th scope="col">Size</th></tr></thead><tbody translate="no">"#;

/// The row of the parent directory.
pub const PARENT_ROW: &'static str = r#"<tr><th scope="row"><a href="../" aria-label="Parent directory">../</a></th><td></td><td></td></tr>"#;

/// The end of the index.
pub const INDEX_END: &'static str = "</tbody></table></body></html>";

/// What is put behind the name of an entry.
pub open spec fn name_suffix(meta: Meta) -> Seq<char> {
    if meta.is_dir {
        "/"@
    } else {
        ""@
    }
}

/// The modification time in the index.
pub open spec fn modified_cell(meta: Meta) -> Seq<char> {
    match meta.modified {
        Some(t) => datetime_text(since_epoch(t as int)),
        None => "-"@,
    }
}

/// The size in the index; directories have none.
pub open spec fn size_cell(meta: Meta) -> Seq<char> {
    if meta.is_dir {
        "-"@
    } else {
        human_size_text(meta.len as nat)
    }
}

/// The row of the entry at `path`, below the request path `base`, which ends with
/// a slash.
pub open spec fn index_row(base: Seq<char>, path: Seq<u8>, meta: Meta) -> Seq<char> {
    let name = display_name(path);
    "<tr><th scope=\"row\"><a href=\""@ + percent_encoded(
        encode_utf8(base + name + name_suffix(meta)),
    ) + "\">"@ + xml_escaped(name) + name_suffix(meta) + "</a></th><td>"@ + modified_cell(meta)
        + "</td><td>"@ + size_cell(meta) + "</td></tr>"@
}

/// The rows of entries, in order.
pub open spec fn index_rows(base: Seq<char>, children: Seq<(Seq<u8>, Meta)>) -> Seq<char>
    decreases children.len(),
{
    if children.len() == 0 {
        seq![]
    } else {
        index_rows(base, children.drop_last()) + index_row(
            base,
            children.last().0,
            children.last().1,
        )
    }
}

/// The row of the parent, which every directory but the root has.
pub open spec fn parent_row(decoded: Seq<char>) -> Seq<char> {
    if decoded == "/"@ {
        seq![]
    } else {
        PARENT_ROW@
    }
}

/// The index of the directory that the request path `decoded` names.
pub open spec fn index_html(decoded: Seq<char>, children: Seq<(Seq<u8>, Meta)>) -> Seq<char> {
    let title = xml_escaped(decoded);
    INDEX_START@ + title + INDEX_STYLE@ + SORT_SCRIPT@ + INDEX_HEADING@ + title + INDEX_TABLE@
        + parent_row(decoded) + index_rows(slashed(decoded), children) + INDEX_END@
}

/// The row of one entry.
fn write_row(base: &str, child: &SafePath) -> (r: String)
    ensures
        r@ == index_row(base@, child@.0, child@.1),
{
    let name = child.name();
    let meta = child.meta();
    let suffix = if meta.is_dir {
        "/"
    } else {
        ""
    };
    let mut link = base.to_string();
    link.append(name.as_str());
    link.append(suffix);
    let modified = match meta.modified {
        Some(t) => datetime_utc(t),
        None => "-".to_string(),
    };
    let size = if meta.is_dir {
        "-".to_string()
    } else {
        human_size(meta.len)
    };
    let mut row = "<tr><th scope=\"row\"><a href=\"".to_string();
    row.append(percent_encode_path(link.as_str()).as_str());
    row.append("\">");
    row.append(xml_escape(name.as_str()).as_str());
    row.append(suffix);
    row.append("</a></th><td>");
    row.append(modified.as_str());
    row.append("</td><td>");
    row.append(size.as_str());
    row.append("</td></tr>");
    row
}

/// The rows of entries, in order.
fn write_rows(base: &str, children: &[SafePath]) -> (r: String)
    ensures
        r@ == index_rows(base@, resources(children@)),
{
    let ghost all = resources(children@);
    let mut rows = String::new();
    let mut i: usize = 0;
    assert(all.take(0) =~= seq![]);
    while i < children.len()
        invariant
            i <= children.len(),
            all == resources(children@),
            rows@ == index_rows(base@, all.take(i as int)),
        decreases children.len() - i,
    {
        let ghost front = all.take(i + 1);
        assert(front.drop_last() =~= all.take(i as int));
        assert(front.last() == children@[i as int]@);
        rows.append(write_row(base, &children[i]).as_str());
        i += 1;
    }
    assert(all.take(i as int) =~= all);
    rows
}

/// The HTML index of the directory `target`, which the request path `decoded_path`
/// names: those of its entries that may be served, in the order of the filesystem.
pub fn directory_index_html(
    served: &Served,
    decoded_path: &str,
    target: &SafePath,
    entries: &[Entry],
) -> (r: String)
    ensures
        r@ == index_html(
            decoded_path@,
            acceptable_entries(served.root_path(), served.exposed(), target@.0, entries@),
        ),
{
    let base = with_trailing_slash(decoded_path);
    let title = xml_escape(decoded_path);
    let parent = if same(decoded_path, "/") {
        String::new()
    } else {
        PARENT_ROW.to_string()
    };
    let children = target.children(served, entries);
    let mut html = INDEX_START.to_string();
    html.append(title.as_str());
    html.append(INDEX_STYLE);
    html.append(SORT_SCRIPT);
    html.append(INDEX_HEADING);
    html.append(title.as_str());
    html.append(INDEX_TABLE);
    html.append(parent.as_str());
    html.append(write_rows(base.as_str(), children.as_slice()).as_str());
    html.append(INDEX_END);
    html
}

// ---------------------------------------------------------------------------
// The XML of PROPFIND
// ---------------------------------------------------------------------------
/// The path of a resource in its link: a collection ends with a slash.
pub open spec fn href_text(href_path: Seq<char>, meta: Meta) -> Seq<char> {
    percent_encoded(
        encode_utf8(
            if meta.is_dir {
                slashed(href_path)
            } else {
                href_path
            },
        ),
    )
}

/// The modification time of a resource, the epoch where it is unknown.
pub open spec fn last_modified(meta: Meta) -> Seq<char> {
    http_date_text(
        match meta.modified {
            Some(t) => since_epoch(t as int),
            None => 0,
        },
    )
}

/// The property with the entity tag, if there is one.
pub open spec fn etag_property(meta: Meta) -> Seq<char> {
    match etag_text(meta) {
        Some(e) => "        <D:getetag>"@ + e + "</D:getetag>\n"@,
        None => seq![],
    }
}

/// The properties of a resource that depend on what it is.
pub open spec fn kind_properties(path: Seq<u8>, meta: Meta) -> Seq<char> {
    if meta.is_dir {
        "        <D:resourcetype><D:collection/></D:resourcetype>\n"@
    } else {
        "        <D:resourcetype/>\n        <D:getcontentlength>"@ + decimal(meta.len as nat)
            + "</D:getcontentlength>\n        <D:getcontenttype>"@ + mime_type(
            lowered(extension_text(path)),
        ) + "</D:getcontenttype>\n"@ + etag_property(meta)
    }
}

/// The description of the resource at `path`, which the request path `href_path`
/// names.
pub open spec fn resource_xml(href_path: Seq<char>, path: Seq<u8>, meta: Meta) -> Seq<char> {
    "  <D:response>\n    <D:href>"@ + href_text(href_path, meta)
        + "</D:href>\n    <D:propstat>\n      <D:prop>\n        <D:displayname>"@ + xml_escaped(
        display_name(path),
    ) + "</D:displayname>\n        <D:getlastmodified>"@ + last_modified(meta)
        + "</D:getlastmodified>\n"@ + kind_properties(path, meta)
        + "      </D:prop>\n      <D:status>HTTP/1.1 200 OK</D:status>\n    </D:propstat>\n  </D:response>\n"@
}

/// The descriptions of the entries of a collection, in order.
pub open spec fn resources_xml(base: Seq<char>, children: Seq<(Seq<u8>, Meta)>) -> Seq<char>
    decreases children.len(),
{
    if children.len() == 0 {
        seq![]
    } else {
        resources_xml(base, children.drop_last()) + resource_xml(
            base + display_name(children.last().0),
            children.last().0,
            children.last().1,
        )
    }
}

/// The answer to PROPFIND: the resource itself, and entries of it.
pub open spec fn multistatus(
    decoded: Seq<char>,
    target: (Seq<u8>, Meta),
    children: Seq<(Seq<u8>, Meta)>,
) -> Seq<char> {
    "<?xml version=\"1.0\" encoding=\"utf-8\"?>\n<D:multistatus xmlns:D=\"DAV:\">\n"@
        + resource_xml(decoded, target.0, target.1) + resources_xml(slashed(decoded), children)
        + "</D:multistatus>\n"@
}

/// The properties of a resource that depend on what it is.
fn write_properties(target: &SafePath) -> (r: String)
    ensures
        r@ == kind_properties(target@.0, target@.1),
{
    let meta = target.meta();
    if meta.is_dir {
        return "        <D:resourcetype><D:collection/></D:resourcetype>\n".to_string();
    }
    let etag = match etag_for(meta) {
        Some(e) => {
            let mut p = "        <D:getetag>".to_string();
            p.append(e.as_str());
            p.append("</D:getetag>\n");
            p
        },
        None => String::new(),
    };
    let mut p = "        <D:resourcetype/>\n        <D:getcontentlength>".to_string();
    p.append(decimal_string(meta.len).as_str());
    p.append("</D:getcontentlength>\n        <D:getcontenttype>");
    p.append(mime_for(target.path()));
    p.append("</D:getcontenttype>\n");
    p.append(etag.as_str());
    p
}

/// Appends the description of one resource to `out`.
pub fn response_xml(out: &mut String, href_path: &str, target: &SafePath)
    ensures
        final(out)@ == old(out)@ + resource_xml(href_path@, target@.0, target@.1),
{
    let meta = target.meta();
    let href = if meta.is_dir {
        with_trailing_slash(href_path)
    } else {
        href_path.to_string()
    };
    let modified = match meta.modified {
        Some(t) => http_date(t),
        None => http_date(0),
    };
    let mut xml = "  <D:response>\n    <D:href>".to_string();
    xml.append(percent_encode_path(href.as_str()).as_str());
    xml.append("</D:href>\n    <D:propstat>\n      <D:prop>\n        <D:displayname>");
    xml.append(xml_escape(target.name().as_str()).as_str());
    xml.append("</D:displayname>\n        <D:getlastmodified>");
    xml.append(modified.as_str());
    xml.append("</D:getlastmodified>\n");
    xml.append(write_properties(target).as_str());
    xml.append(
        "      </D:prop>\n      <D:status>HTTP/1.1 200 OK</D:status>\n    </D:propstat>\n  </D:response>\n",
    );
    out.append(xml.as_str());
}

/// The descriptions of the entries of a collection, in order.
fn write_resources(base: &str, children: &[SafePath]) -> (r: String)
    ensures
        r@ == resources_xml(base@, resources(children@)),
{
    let ghost all = resources(children@);
    let mut xml = String::new();
    let mut i: usize = 0;
    assert(all.take(0) =~= seq![]);
    while i < children.len()
        invariant
            i <= children.len(),
            all == resources(children@),
            xml@ == resources_xml(base@, all.take(i as int)),
        decreases children.len() - i,
    {
        let ghost front = all.take(i + 1);
        assert(front.drop_last() =~= all.take(i as int));
        assert(front.last() == children@[i as int]@);
        let mut path = base.to_string();
        path.append(children[i].name().as_str());
        response_xml(&mut xml, path.as_str(), &children[i]);
        i += 1;
    }
    assert(all.take(i as int) =~= all);
    xml
}

/// The answer to PROPFIND on `target`, which the request path `decoded_path` names;
/// the entries of `target` that may be served are described too.
pub fn multistatus_xml(
    served: &Served,
    decoded_path: &str,
    target: &SafePath,
    entries: &[Entry],
) -> (r: String)
    ensures
        r@ == multistatus(
            decoded_path@,
            target@,
            acceptable_entries(served.root_path(), served.exposed(), target@.0, entries@),
        ),
{
    let base = with_trailing_slash(decoded_path);
    let children = target.children(served, entries);
    let mut xml =
        "<?xml version=\"1.0\" encoding=\"utf-8\"?>\n<D:multistatus xmlns:D=\"DAV:\">\n".to_string();
    response_xml(&mut xml, decoded_path, target);
    xml.append(write_resources(base.as_str(), children.as_slice()).as_str());
    xml.append("</D:multistatus>\n");
    xml
}

// ---------------------------------------------------------------------------
// Laws
// ---------------------------------------------------------------------------
/// Names cannot inject markup: what an entry contributes to the index and to the
/// XML, as a link or as text, holds no character that begins or ends an element, or
/// an attribute.
pub proof fn law_names_are_inert(base: Seq<char>, path: Seq<u8>, meta: Meta)
    ensures
        ({
            let link = percent_encoded(
                encode_utf8(base + display_name(path) + name_suffix(meta)),
            );
            forall|i: int| 0 <= i < link.len() ==> is_inert(#[trigger] link[i])
        }),
        forall|i: int|
            0 <= i < href_text(base, meta).len() ==> is_inert(#[trigger] href_text(base, meta)[i]),
        forall|i: int|
            0 <= i < xml_escaped(display_name(path)).len() ==> is_inert(
                #[trigger] xml_escaped(display_name(path))[i],
            ),
{
    let link = encode_utf8(base + display_name(path) + name_suffix(meta));
    let href = encode_utf8(
        if meta.is_dir {
            slashed(base)
        } else {
            base
        },
    );
    law_encoded_path_is_link(link);
    law_encoded_path_is_link(href);
    law_escaped_text_is_inert(display_name(path));
    assert forall|i: int| 0 <= i < percent_encoded(link).len() implies is_inert(
        #[trigger] percent_encoded(link)[i],
    ) by {
        assert(is_link_char(percent_encoded(link)[i]));
    }
    assert forall|i: int| 0 <= i < percent_encoded(href).len() implies is_inert(
        #[trigger] percent_encoded(href)[i],
    ) by {
        assert(is_link_char(percent_encoded(href)[i]));
    }
}

/// Whether a character neither begins nor ends an element or an attribute.
pub open spec fn is_inert(c: char) -> bool {
    c != '<' && c != '>' && c != '"' && c != '\''
}

/// The index shows the entries of a directory in their order, one row for each.
pub proof fn law_index_shows_each_entry(
    base: Seq<char>,
    children: Seq<(Seq<u8>, Meta)>,
    path: Seq<u8>,
    meta: Meta,
)
    ensures
        index_rows(base, seq![]) == Seq::<char>::empty(),
        index_rows(base, children.push((path, meta))) == index_rows(base, children) + index_row(
            base,
            path,
            meta,
        ),
        resources_xml(base, seq![]) == Seq::<char>::empty(),
        resources_xml(base, children.push((path, meta))) == resources_xml(base, children)
            + resource_xml(base + display_name(path), path, meta),
{
    assert(children.push((path, meta)).drop_last() =~= children);
}

/// What a row of the index shows: a link that a client decodes to the path of the
/// entry, with a slash behind a directory; the name, which it reads with the entities
/// resolved; when the entry was modified; and how large a file is.
pub proof fn law_index_row(base: Seq<char>, path: Seq<u8>, meta: Meta) -> (r: (
    Seq<char>,
    Seq<char>,
))
    ensures
        lossy_text(percent_decoded(encode_utf8(r.0))) == base + display_name(path) + (
        if meta.is_dir {
            seq!['/']
        } else {
            seq![]
        }),
        xml_unescaped(r.1) == display_name(path),
        index_row(base, path, meta) == "<tr><th scope=\"row\"><a href=\""@ + r.0 + "\">"@ + r.1 + (
        if meta.is_dir {
            seq!['/']
        } else {
            seq![]
        }) + "</a></th><td>"@ + (match meta.modified {
            Some(t) => datetime_text(
                if t < 0 {
                    0
                } else {
                    t as int
                },
            ),
            None => seq!['-'],
        }) + "</td><td>"@ + (if meta.is_dir {
            seq!['-']
        } else {
            human_size_text(meta.len as nat)
        }) + "</td></tr>"@,
{
    reveal_strlit("/");
    reveal_strlit("");
    reveal_strlit("-");
    assert("/"@ =~= seq!['/']);
    assert(""@ =~= seq![]);
    assert("-"@ =~= seq!['-']);
    let target = base + display_name(path) + name_suffix(meta);
    law_percent_round_trip(target);
    law_xml_round_trip(display_name(path));
    (percent_encoded(encode_utf8(target)), xml_escaped(display_name(path)))
}

/// What the index of a directory shows: the path of the directory, which a client reads
/// with the entities resolved, as the title and the heading; a row for its parent, but
/// for the root; and the rows of its entries, whose links lie below its path.
pub proof fn law_index_page(decoded: Seq<char>, children: Seq<(Seq<u8>, Meta)>) -> (title: Seq<
    char,
>)
    ensures
        xml_unescaped(title) == decoded,
        index_html(decoded, children) == INDEX_START@ + title + INDEX_STYLE@ + SORT_SCRIPT@
            + INDEX_HEADING@ + title + INDEX_TABLE@ + (if decoded == seq!['/'] {
            seq![]
        } else {
            PARENT_ROW@
        }) + index_rows(
            if decoded.len() > 0 && decoded.last() == '/' {
                decoded
            } else {
                decoded + seq!['/']
            },
            children,
        ) + INDEX_END@,
{
    reveal_strlit("/");
    assert("/"@ =~= seq!['/']);
    law_xml_round_trip(decoded);
    xml_escaped(decoded)
}

/// What PROPFIND says of a resource: a link that a client decodes to its path, with a
/// slash behind a collection; its name; when it was modified, or the epoch where that is
/// unknown; and of a file its length, its type and its entity tag, if it has one.
pub proof fn law_described_resource(href_path: Seq<char>, path: Seq<u8>, meta: Meta) -> (r: (
    Seq<char>,
    Seq<char>,
))
    ensures
        lossy_text(percent_decoded(encode_utf8(r.0))) == (if meta.is_dir && !(href_path.len() > 0
            && href_path.last() == '/') {
            href_path + seq!['/']
        } else {
            href_path
        }),
        xml_unescaped(r.1) == display_name(path),
        resource_xml(href_path, path, meta) == "  <D:response>\n    <D:href>"@ + r.0
            + "</D:href>\n    <D:propstat>\n      <D:prop>\n        <D:displayname>"@ + r.1
            + "</D:displayname>\n        <D:getlastmodified>"@ + http_date_text(
            match meta.modified {
                Some(t) if t >= 0 => t as int,
                _ => 0,
            },
        ) + "</D:getlastmodified>\n"@ + (if meta.is_dir {
            "        <D:resourcetype><D:collection/></D:resourcetype>\n"@
        } else {
            "        <D:resourcetype/>\n        <D:getcontentlength>"@ + decimal(meta.len as nat)
                + "</D:getcontentlength>\n        <D:getcontenttype>"@ + mime_type(
                lowered(extension_text(path)),
            ) + "</D:getcontenttype>\n"@ + (match etag_text(meta) {
                Some(e) => "        <D:getetag>"@ + e + "</D:getetag>\n"@,
                None => seq![],
            })
        })
            + "      </D:prop>\n      <D:status>HTTP/1.1 200 OK</D:status>\n    </D:propstat>\n  </D:response>\n"@,
{
    reveal_strlit("/");
    assert("/"@ =~= seq!['/']);
    let target = if meta.is_dir {
        slashed(href_path)
    } else {
        href_path
    };
    law_percent_round_trip(target);
    law_xml_round_trip(display_name(path));
    (percent_encoded(encode_utf8(target)), xml_escaped(display_name(path)))
}

/// The answer to PROPFIND describes the resource itself first, then the entries below
/// its path.
pub proof fn law_multistatus(
    decoded: Seq<char>,
    path: Seq<u8>,
    meta: Meta,
    children: Seq<(Seq<u8>, Meta)>,
)
    ensures
        multistatus(decoded, (path, meta), children)
            == "<?xml version=\"1.0\" encoding=\"utf-8\"?>\n<D:multistatus xmlns:D=\"DAV:\">\n"@
            + resource_xml(decoded, path, meta) + resources_xml(
            if decoded.len() > 0 && decoded.last() == '/' {
                decoded
            } else {
                decoded + seq!['/']
            },
            children,
        ) + "</D:multistatus>\n"@,
{
    reveal_strlit("/");
    assert("/"@ =~= seq!['/']);
}

} // verus!
