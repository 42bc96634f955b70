//! Directory listings: which entries are shown, in what order, and their HTML.

use vstd::multiset::Multiset;
use vstd::prelude::*;

use vstd::string::StringSliceAdditionalSpecFns;

use crate::http::{eq_ignore_case, same_name, Body, Header, Method, Response};
use crate::path::{entity_path_of, get_entity_path};
use crate::response::not_found;
use crate::serve::{is_read_method, ServeConfig};
use crate::text::{chars_of, decimal, decimal_of, string_of};

verus! {

broadcast use vstd::seq_lib::group_to_multiset_ensures;

/// One entry of a directory.
pub struct FolderItem {
    pub filename: String,
    /// The entry's path under the site root, with a leading slash.
    pub href: String,
    pub is_dir: bool,
    pub is_image: bool,
    /// Length in bytes (files only).
    pub size: u64,
    /// Creation time in milliseconds since the epoch, where the filesystem knows it.
    pub created_ms: Option<u64>,
}

/// What `str::to_lowercase` returns for `s`: its Unicode lower case.
pub uninterp spec fn lower_of(s: Seq<char>) -> Seq<char>;

/// Relies on `str::to_lowercase`: the Unicode lower case of a string, which
/// depends on its characters alone.
#[verifier::external_body]
fn lowercase(s: &str) -> (r: String)
    ensures
        r@ == lower_of(s@),
{
    s.to_lowercase()
}

/// Lexicographic order on characters.
pub open spec fn lex_le(a: Seq<char>, b: Seq<char>) -> bool
    decreases a.len(),
{
    if a.len() == 0 {
        true
    } else if b.len() == 0 {
        false
    } else if a[0] != b[0] {
        a[0] < b[0]
    } else {
        lex_le(a.drop_first(), b.drop_first())
    }
}

pub proof fn lemma_lex_total(a: Seq<char>, b: Seq<char>)
    ensures
        lex_le(a, b) || lex_le(b, a),
    decreases a.len(),
{
    if a.len() > 0 && b.len() > 0 && a[0] == b[0] {
        lemma_lex_total(a.drop_first(), b.drop_first());
    }
}

pub proof fn lemma_lex_trans(a: Seq<char>, b: Seq<char>, c: Seq<char>)
    requires
        lex_le(a, b),
        lex_le(b, c),
    ensures
        lex_le(a, c),
    decreases a.len(),
{
    if a.len() > 0 && b.len() > 0 && c.len() > 0 && a[0] == b[0] && b[0] == c[0] {
        lemma_lex_trans(a.drop_first(), b.drop_first(), c.drop_first());
    }
}

/// Directories come first, then names ordered by their lower case.
pub open spec fn listed_before(a: FolderItem, b: FolderItem) -> bool {
    (a.is_dir && !b.is_dir) || (a.is_dir == b.is_dir && lex_le(lower_of(a.filename@), lower_of(b.filename@)))
}

pub open spec fn listing_sorted(s: Seq<FolderItem>) -> bool {
    forall|i: int, j: int| 0 <= i < j < s.len() ==> listed_before(#[trigger] s[i], #[trigger] s[j])
}

proof fn lemma_listed_total(a: FolderItem, b: FolderItem)
    ensures
        listed_before(a, b) || listed_before(b, a),
{
    lemma_lex_total(lower_of(a.filename@), lower_of(b.filename@));
}

proof fn lemma_listed_trans(a: FolderItem, b: FolderItem, c: FolderItem)
    requires
        listed_before(a, b),
        listed_before(b, c),
    ensures
        listed_before(a, c),
{
    if a.is_dir == b.is_dir && b.is_dir == c.is_dir {
        lemma_lex_trans(lower_of(a.filename@), lower_of(b.filename@), lower_of(c.filename@));
    }
}

fn before(a: &FolderItem, b: &FolderItem) -> (r: bool)
    ensures
        r == listed_before(*a, *b),
{
    if a.is_dir != b.is_dir {
        return a.is_dir;
    }
    let x = chars_of(lowercase(a.filename.as_str()).as_str());
    let y = chars_of(lowercase(b.filename.as_str()).as_str());
    let ghost lx = x@;
    let ghost ly = y@;
    let mut i: usize = 0;
    assert(lx.subrange(0, lx.len() as int) =~= lx);
    assert(ly.subrange(0, ly.len() as int) =~= ly);
    while i < x.len() && i < y.len()
        invariant
            i <= x@.len(),
            i <= y@.len(),
            lx == x@,
            ly == y@,
            lx == lower_of(a.filename@),
            ly == lower_of(b.filename@),
            a.is_dir == b.is_dir,
            lex_le(lx, ly) == lex_le(lx.subrange(i as int, lx.len() as int), ly.subrange(i as int, ly.len() as int)),
        decreases x@.len() - i,
    {
        let p = x[i];
        let q = y[i];
        let ghost sx = lx.subrange(i as int, lx.len() as int);
        let ghost sy = ly.subrange(i as int, ly.len() as int);
        assert(sx[0] == p && sy[0] == q);
        if p != q {
            return p < q;
        }
        assert(sx.drop_first() =~= lx.subrange(i + 1, lx.len() as int));
        assert(sy.drop_first() =~= ly.subrange(i + 1, ly.len() as int));
        i += 1;
    }
    i == x.len()
}

/// The entries in listing order: directories first, then by case-insensitive name.
pub fn sort_listing(items: Vec<FolderItem>) -> (r: Vec<FolderItem>)
    ensures
        listing_sorted(r@),
        r@.to_multiset() == items@.to_multiset(),
{
    let mut rest = items;
    let mut out: Vec<FolderItem> = Vec::new();
    while rest.len() > 0
        invariant
            listing_sorted(out@),
            out@.to_multiset().add(rest@.to_multiset()) == items@.to_multiset(),
        decreases rest@.len(),
    {
        let ghost r0 = rest@;
        let x = rest.pop().unwrap();
        assert(r0 =~= rest@.push(x));
        let mut j: usize = 0;
        while j < out.len() && before(&out[j], &x)
            invariant
                j <= out@.len(),
                forall|k: int| 0 <= k < j ==> listed_before(#[trigger] out@[k], x),
            decreases out@.len() - j,
        {
            j += 1;
        }
        let ghost o0 = out@;
        proof {
            if j < o0.len() {
                lemma_listed_total(o0[j as int], x);
            }
            assert forall|k: int| j <= k < o0.len() implies listed_before(x, #[trigger] o0[k]) by {
                if k > j {
                    lemma_listed_trans(x, o0[j as int], o0[k]);
                }
            }
        }
        out.insert(j, x);
        proof {
            o0.insert_ensures(j as int, x);
            assert forall|a: int, b: int| 0 <= a < b < out@.len() implies listed_before(
                #[trigger] out@[a],
                #[trigger] out@[b],
            ) by {
                if b < j {
                } else if a < j && b == j {
                } else if a < j {
                    assert(out@[b] == o0[b - 1]);
                    lemma_listed_trans(out@[a], x, out@[b]);
                } else if a == j {
                    assert(out@[b] == o0[b - 1]);
                } else {
                    assert(out@[a] == o0[a - 1]);
                    assert(out@[b] == o0[b - 1]);
                }
            }
            assert(out@.remove(j as int) =~= o0);
            assert(out@.to_multiset() =~= o0.to_multiset().insert(x));
            assert(r0.to_multiset() =~= rest@.to_multiset().insert(x));
            assert(out@.to_multiset().add(rest@.to_multiset()) =~= o0.to_multiset().add(r0.to_multiset()));
        }
    }
    assert(rest@.to_multiset() =~= Multiset::empty());
    assert(out@.to_multiset().add(Multiset::empty()) =~= out@.to_multiset());
    out
}

/// Whether an entry is listed: dotfiles only where they are served.
pub open spec fn shown(item: FolderItem, dotfiles: bool) -> bool {
    dotfiles || !(item.filename@.len() > 0 && item.filename@[0] == '.')
}

/// The entries that are listed, in no particular order.
pub fn visible_items(items: Vec<FolderItem>, dotfiles: bool) -> (r: Vec<FolderItem>)
    ensures
        r@.to_multiset() == items@.filter(|x: FolderItem| shown(x, dotfiles)).to_multiset(),
{
    let ghost pred = |x: FolderItem| shown(x, dotfiles);
    let mut rest = items;
    let mut out: Vec<FolderItem> = Vec::new();
    while rest.len() > 0
        invariant
            pred == (|x: FolderItem| shown(x, dotfiles)),
            out@.to_multiset().add(rest@.filter(pred).to_multiset()) == items@.filter(pred).to_multiset(),
        decreases rest@.len(),
    {
        let ghost r0 = rest@;
        let x = rest.pop().unwrap();
        proof {
            reveal(Seq::filter);
            assert(r0 =~= rest@.push(x));
            assert(r0.drop_last() =~= rest@);
        }
        let c = chars_of(x.filename.as_str());
        let hidden = !dotfiles && c.len() > 0 && c[0] == '.';
        let ghost o0 = out@;
        if !hidden {
            out.push(x);
            assert(r0.filter(pred) == rest@.filter(pred).push(x));
            assert(out@.to_multiset().add(rest@.filter(pred).to_multiset()) =~= o0.to_multiset().add(
                r0.filter(pred).to_multiset(),
            ));
        } else {
            assert(r0.filter(pred) == rest@.filter(pred));
        }
    }
    proof {
        reveal(Seq::filter);
        assert(rest@.filter(pred) =~= Seq::<FolderItem>::empty());
        assert(rest@.filter(pred).to_multiset() =~= Multiset::empty());
        assert(out@.to_multiset().add(Multiset::empty()) =~= out@.to_multiset());
    }
    out
}

/// `s` without its trailing slashes.
pub open spec fn without_trailing_slashes(s: Seq<char>) -> Seq<char>
    decreases s.len(),
{
    if s.len() > 0 && s.last() == '/' {
        without_trailing_slashes(s.drop_last())
    } else {
        s
    }
}

/// The position of the last slash in `s`, if any.
pub open spec fn last_slash(s: Seq<char>) -> Option<nat>
    decreases s.len(),
{
    if s.len() == 0 {
        None
    } else if s.last() == '/' {
        Some((s.len() - 1) as nat)
    } else {
        last_slash(s.drop_last())
    }
}

/// The link to the parent of the listed directory, given the directory's path
/// relative to the root: none for the root itself.
pub open spec fn parent_link(rel: Seq<char>) -> Option<Seq<char>> {
    let t = without_trailing_slashes(rel);
    if t.len() == 0 {
        None
    } else {
        match last_slash(t) {
            None => Some(seq!['/']),
            Some(k) => Some(seq!['/'] + t.subrange(0, k as int)),
        }
    }
}

pub fn parent_href(rel: &str) -> (r: Option<String>)
    ensures
        r.is_some() == parent_link(rel@).is_some(),
        r.is_some() ==> r.unwrap()@ == parent_link(rel@).unwrap(),
{
    let c = chars_of(rel);
    let mut end = c.len();
    assert(c@.subrange(0, end as int) =~= c@);
    while end > 0 && c[end - 1] == '/'
        invariant
            end <= c@.len(),
            c@ == rel@,
            without_trailing_slashes(rel@) == without_trailing_slashes(c@.subrange(0, end as int)),
        decreases end,
    {
        assert(c@.subrange(0, end as int).drop_last() =~= c@.subrange(0, end - 1));
        end -= 1;
    }
    let ghost t = c@.subrange(0, end as int);
    assert(without_trailing_slashes(rel@) == t);
    if end == 0 {
        return None;
    }
    let mut k = end;
    assert(t.subrange(0, k as int) =~= t);
    while k > 0 && c[k - 1] != '/'
        invariant
            k <= end,
            end <= c@.len(),
            t == c@.subrange(0, end as int),
            last_slash(t) == last_slash(t.subrange(0, k as int)),
        decreases k,
    {
        assert(t.subrange(0, k as int).drop_last() =~= t.subrange(0, k - 1));
        k -= 1;
    }
    let slash: [char; 1] = ['/'];
    let mut out = string_of(&slash);
    if k == 0 {
        assert(last_slash(t.subrange(0, 0)) == None::<nat>);
        return Some(out);
    }
    assert(last_slash(t) == Some((k - 1) as nat));
    let mut prefix: Vec<char> = Vec::new();
    let mut i: usize = 0;
    while i < k - 1
        invariant
            i <= k - 1,
            k <= c@.len(),
            prefix@ == c@.subrange(0, i as int),
        decreases k - 1 - i,
    {
        prefix.push(c[i]);
        i += 1;
        assert(prefix@ =~= c@.subrange(0, i as int));
    }
    out.append(string_of(prefix.as_slice()).as_str());
    assert(out@ =~= seq!['/'] + t.subrange(0, k - 1));
    Some(out)
}

/// The CSS class of an entry's link.
pub open spec fn row_class(item: &FolderItem) -> Seq<char> {
    if item.is_dir {
        "fo"@
    } else if item.is_image {
        "img"@
    } else {
        "fi"@
    }
}

/// A size or time cell: the number, or a dash where there is none.
pub open spec fn cell(n: Option<u64>) -> Seq<char> {
    match n {
        Some(v) => decimal_of(v as nat),
        None => "\u{2014}"@,
    }
}

/// The table row of one entry.
pub open spec fn row_html(item: &FolderItem) -> Seq<char> {
    "\n<tr><td><a href=\""@ + item.href@ + "\" class=\""@ + row_class(item) + "\">"@ + item.filename@
        + "<td>"@ + cell(if item.is_dir { None } else { Some(item.size) }) + "<td class=\"created\">"@
        + cell(item.created_ms)
}

fn cell_text(n: Option<u64>) -> (r: String)
    ensures
        r@ == cell(n),
{
    match n {
        Some(v) => decimal(v),
        None => "\u{2014}".to_owned(),
    }
}

pub fn listing_row(item: &FolderItem) -> (r: String)
    ensures
        r@ == row_html(item),
{
    let class = if item.is_dir {
        "fo"
    } else if item.is_image {
        "img"
    } else {
        "fi"
    };
    let mut s = "\n<tr><td><a href=\"".to_owned();
    s.append(item.href.as_str());
    s.append("\" class=\"");
    s.append(class);
    s.append("\">");
    s.append(item.filename.as_str());
    s.append("<td>");
    s.append(cell_text(if item.is_dir { None } else { Some(item.size) }).as_str());
    s.append("<td class=\"created\">");
    s.append(cell_text(item.created_ms).as_str());
    s
}

/// The first part of a listing page: its title, style and table head, then the
/// parent row where there is a parent.
pub open spec fn head_html(title: Seq<char>, css: Seq<char>, parent: Option<Seq<char>>) -> Seq<char> {
    "<!doctype html>\n<html lang=\"en\">\n<meta charset=\"utf-8\">\n<title>"@ + title + "</title>\n<style>"@
        + css + "</style>\n<table><tr><th>Name<th>Size<th>Created\n"@ + match parent {
        Some(p) => "<tr><td><a class=\"fo\" href=\""@ + p + "\">..<td>\u{2014}<td>\u{2014}"@,
        None => Seq::empty(),
    }
}

pub fn listing_head(title: &str, css: &str, parent: Option<&str>) -> (r: String)
    ensures
        r@ == head_html(title@, css@, match parent {
            Some(p) => Some(p@),
            None => None,
        }),
{
    let mut s = "<!doctype html>\n<html lang=\"en\">\n<meta charset=\"utf-8\">\n<title>".to_owned();
    s.append(title);
    s.append("</title>\n<style>");
    s.append(css);
    s.append("</style>\n<table><tr><th>Name<th>Size<th>Created\n");
    match parent {
        Some(p) => {
            s.append("<tr><td><a class=\"fo\" href=\"");
            s.append(p);
            s.append("\">..<td>\u{2014}<td>\u{2014}");
        },
        None => {},
    }
    assert(s@ =~= head_html(title@, css@, match parent {
        Some(p) => Some(p@),
        None => None,
    }));
    s
}

/// The last part of a listing page: its script.
pub fn listing_tail(js: &str) -> (r: String)
    ensures
        r@ == "<script>"@ + js@ + "</script>"@,
{
    let mut s = "<script>".to_owned();
    s.append(js);
    s.append("</script>");
    s
}

pub open spec fn rows(items: Seq<FolderItem>) -> Seq<Seq<char>> {
    items.map_values(|i: FolderItem| row_html(&i))
}

pub open spec fn string_views(v: Seq<String>) -> Seq<Seq<char>> {
    v.map_values(|s: String| s@)
}

/// The parts of a listing page for the entries `items` (already in listing
/// order) of the directory at request path `/rel`: the head with the parent
/// link where there is one, one row per entry, then the script.
pub fn listing_parts(items: &Vec<FolderItem>, rel: &str, css: &str, js: &str) -> (r: Vec<String>)
    ensures
        string_views(r@) == seq![head_html(seq!['/'] + rel@, css@, parent_link(rel@))] + rows(items@)
            + seq!["<script>"@ + js@ + "</script>"@],
{
    let slash: [char; 1] = ['/'];
    let mut title = string_of(&slash);
    title.append(rel);
    assert(title@ =~= seq!['/'] + rel@);
    let parent = parent_href(rel);
    let head = match &parent {
        Some(p) => listing_head(title.as_str(), css, Some(p.as_str())),
        None => listing_head(title.as_str(), css, None),
    };
    assert(head@ == head_html(seq!['/'] + rel@, css@, parent_link(rel@)));
    let mut out: Vec<String> = Vec::new();
    out.push(head);
    let ghost first = string_views(out@);
    assert(first =~= seq![head_html(seq!['/'] + rel@, css@, parent_link(rel@))]);
    assert(items@.subrange(0, 0) =~= Seq::<FolderItem>::empty());
    assert(first + rows(items@.subrange(0, 0)) =~= first);
    let mut i: usize = 0;
    while i < items.len()
        invariant
            i <= items@.len(),
            first == seq![head_html(seq!['/'] + rel@, css@, parent_link(rel@))],
            string_views(out@) == first + rows(items@.subrange(0, i as int)),
        decreases items@.len() - i,
    {
        let ghost prev = string_views(out@);
        let row = listing_row(&items[i]);
        out.push(row);
        assert(string_views(out@) =~= prev.push(row_html(&items@[i as int])));
        assert(items@.subrange(0, i + 1) =~= items@.subrange(0, i as int).push(items@[i as int]));
        assert(rows(items@.subrange(0, i + 1)) =~= rows(items@.subrange(0, i as int)).push(row_html(&items@[i as int])));
        i += 1;
        assert(string_views(out@) =~= first + rows(items@.subrange(0, i as int)));
    }
    assert(items@.subrange(0, items@.len() as int) =~= items@);
    let ghost before = string_views(out@);
    out.push(listing_tail(js));
    assert(string_views(out@) =~= before.push("<script>"@ + js@ + "</script>"@));
    out
}

/// Whether a file extension names an image format that browsers show.
pub fn is_image_ext(ext: &str) -> (r: bool)
    ensures
        r == (same_name(ext@, "jpg"@) || same_name(ext@, "jpeg"@) || same_name(ext@, "gif"@)
            || same_name(ext@, "bmp"@) || same_name(ext@, "png"@)),
{
    eq_ignore_case(ext, "jpg") || eq_ignore_case(ext, "jpeg") || eq_ignore_case(ext, "gif")
        || eq_ignore_case(ext, "bmp") || eq_ignore_case(ext, "png")
}

/// What the listing stage does with a request.
pub enum BrowsePlan {
    /// Leave the request to the next stage.
    Descend,
    /// Answer at once.
    Respond(Response),
    /// List this directory if it is one; the request path without its leading
    /// slash is given too, for the page title and the parent link.
    List(String, String),
}

/// The listing stage's decision: only sites that serve files with listing on,
/// and only for GET, HEAD and OPTIONS.
pub fn plan_browse(config: Option<&ServeConfig>, method: &Method, req_path: &str) -> (r: BrowsePlan)
    ensures
        (config.is_none() || !config.unwrap().browse || !is_read_method(*method)) ==> r is Descend,
        config.is_some() && config.unwrap().browse && is_read_method(*method) ==> match entity_path_of(
            config.unwrap().root@,
            req_path@,
            req_path.spec_bytes(),
        ) {
            None => (r matches BrowsePlan::Respond(res) && res.status == 404),
            Some(p) => (r matches BrowsePlan::List(dir, rel) && dir@ == p && rel@ == req_path@.drop_first()),
        },
{
    let c = match config {
        None => {
            return BrowsePlan::Descend;
        },
        Some(c) => c,
    };
    if !c.browse || !(*method == Method::Get || *method == Method::Head || *method == Method::Options) {
        return BrowsePlan::Descend;
    }
    match get_entity_path(c.root.as_str(), req_path) {
        None => BrowsePlan::Respond(not_found()),
        Some(dir) => {
            let rel = relative_part(req_path);
            BrowsePlan::List(dir, rel)
        },
    }
}

/// `p` without its leading slash.
fn relative_part(p: &str) -> (r: String)
    ensures
        p@.len() > 0 && p@[0] == '/' ==> r@ == p@.drop_first(),
        !(p@.len() > 0 && p@[0] == '/') ==> r@ == p@,
{
    let c = chars_of(p);
    if c.len() > 0 && c[0] == '/' {
        let mut v: Vec<char> = Vec::new();
        let mut i: usize = 1;
        while i < c.len()
            invariant
                1 <= i <= c@.len(),
                c@ == p@,
                v@ == c@.subrange(1, i as int),
            decreases c@.len() - i,
        {
            v.push(c[i]);
            i += 1;
            assert(v@ =~= c@.subrange(1, i as int));
        }
        assert(v@ =~= p@.drop_first());
        string_of(v.as_slice())
    } else {
        p.to_owned()
    }
}

/// The head of a listing response; its body is produced in parts.
pub fn listing_response() -> (r: Response)
    ensures
        r.status == 200,
        r.fields() == seq![("Content-Type"@, "text/html; charset=utf-8"@)],
        r.body is Listing,
{
    let mut headers: Vec<Header> = Vec::new();
    headers.push(Header::new("Content-Type", "text/html; charset=utf-8".to_owned()));
    assert(crate::http::fields(headers@) =~= seq![("Content-Type"@, "text/html; charset=utf-8"@)]);
    Response { status: 200, headers, body: Body::Listing }
}

} // verus!
