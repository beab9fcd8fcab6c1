//! The HTML of one gallery page: head, heading, navigation and items.

use crate::config::Config;
use crate::order::texts;
use crate::pager::{
    effective_page_of, lemma_page_beyond_is_empty, max_pages_of, page_items, paginate,
};
use crate::stamp::{epoch_seconds, is_label, parse_ts, stamp_prefix_of};
use vstd::prelude::*;
use vstd::string::*;

verus! {

/// The character of one decimal digit.
pub open spec fn digit_char(d: nat) -> char
    recommends
        d < 10,
{
    if d == 0 {
        '0'
    } else if d == 1 {
        '1'
    } else if d == 2 {
        '2'
    } else if d == 3 {
        '3'
    } else if d == 4 {
        '4'
    } else if d == 5 {
        '5'
    } else if d == 6 {
        '6'
    } else if d == 7 {
        '7'
    } else if d == 8 {
        '8'
    } else {
        '9'
    }
}

/// A number in decimal, without sign or leading zeros.
pub open spec fn decimal_text(n: nat) -> Seq<char>
    decreases n,
{
    if n < 10 {
        seq![digit_char(n)]
    } else {
        decimal_text(n / 10).push(digit_char(n % 10))
    }
}

/// A navigation control that cannot be followed.
pub open spec fn inert_html(text: Seq<char>) -> Seq<char> {
    "<div class=\"navigation-c\">"@ + text + "</div>"@
}

/// A navigation control that leads to page `target`.
pub open spec fn link_html(path: Seq<char>, target: nat, text: Seq<char>) -> Seq<char> {
    "<div class=\"navigation-c\"><a href=\""@ + path + "?page="@ + decimal_text(target) + "\">"@
        + text + "</a></div>"@
}

/// The control that leads one page back; inert on the first page.
pub open spec fn prev_html(path: Seq<char>, page: nat) -> Seq<char>
    recommends
        page >= 1,
{
    if page == 1 {
        inert_html("prev"@)
    } else {
        link_html(path, (page - 1) as nat, "prev"@)
    }
}

/// The label that names the page shown.
pub open spec fn current_html(page: nat) -> Seq<char> {
    "<div class=\"navigation-c\"> PAGE "@ + decimal_text(page) + " </div>"@
}

/// The control that leads one page on; inert on the last page and past it.
pub open spec fn next_html(path: Seq<char>, page: nat, max_pages: nat) -> Seq<char> {
    if page < max_pages {
        link_html(path, page + 1, "next"@)
    } else {
        inert_html("next"@)
    }
}

/// The navigation block.
pub open spec fn nav_html(path: Seq<char>, page: nat, max_pages: nat) -> Seq<char>
    recommends
        page >= 1,
{
    "      <div class=\"navigation-div\">"@ + prev_html(path, page) + current_html(page)
        + next_html(path, page, max_pages) + "</div>\n"@
}

/// The document's head and the opening of its body.
pub open spec fn head_html(base: Seq<char>) -> Seq<char> {
    "<!DOCTYPE html>\n<html>\n  <head>\n    <title>Video Server</title>\n    <meta charset=\"utf-8\">\n    <link rel=\"stylesheet\" type=\"text/css\" href=\""@
        + base + "/static/style.css\">\n  </head>\n  <body>\n"@
}

/// The heading with the instance's name.
pub open spec fn heading_html(instance: Seq<char>) -> Seq<char> {
    "      <div><h1>"@ + instance + "</div>\n"@
}

/// The player of one file and the link below it.
pub open spec fn item_html(base: Seq<char>, name: Seq<char>, label: Seq<char>) -> Seq<char> {
    "      <div class=\"video-div\"><video class=\"video-el\" controls><source src=\""@ + base
        + "/video/"@ + name + "\"/></video></div>\n"@ + "      <div class=\"link-div\"><a href=\""@
        + base + "/video/"@ + name + "\">"@ + label + "</a></div>\n"@
}

/// The label of the item at `i`: the one given for it, else its name.
pub open spec fn label_at(names: Seq<Seq<char>>, labels: Seq<Seq<char>>, i: int) -> Seq<char> {
    if 0 <= i < labels.len() {
        labels[i]
    } else {
        names[i]
    }
}

/// The blocks of the first `count` items of a page, in order.
pub open spec fn items_html(
    base: Seq<char>,
    names: Seq<Seq<char>>,
    labels: Seq<Seq<char>>,
    count: nat,
) -> Seq<char>
    decreases count,
{
    if count == 0 {
        Seq::empty()
    } else {
        items_html(base, names, labels, (count - 1) as nat) + item_html(
            base,
            names[count - 1],
            label_at(names, labels, count - 1),
        )
    }
}

/// The items that page `page` of the listing `names` shows under `config`.
pub open spec fn shown_items(config: Config, names: Seq<Seq<char>>, page: nat) -> Seq<Seq<char>> {
    page_items(names, config.video_count as nat, effective_page_of(page))
}

/// The whole document for page `page` of the listing `names`; `labels`
/// runs beside the items of that page.
pub open spec fn page_html(
    config: Config,
    names: Seq<Seq<char>>,
    labels: Seq<Seq<char>>,
    page: nat,
) -> Seq<char> {
    head_html(config.uri_path@) + "    <div class=\"main-div\">\n"@ + heading_html(
        config.instance_name@,
    ) + nav_html(
        config.uri_path@,
        effective_page_of(page),
        max_pages_of(names.len(), config.video_count as nat),
    ) + items_html(
        config.uri_path@,
        shown_items(config, names, page),
        labels,
        shown_items(config, names, page).len(),
    ) + "    </div>\n"@ + "  </body>\n</html>\n"@
}

/// Labels that decoding may give to the items shown: one for each item,
/// which is the name itself wherever its prefix does not read as seconds,
/// and a moment in local time wherever it does.
pub open spec fn labels_fit(shown: Seq<Seq<char>>, labels: Seq<Seq<char>>) -> bool {
    &&& labels.len() == shown.len()
    &&& forall|i: int| 0 <= i < shown.len() ==> is_label(#[trigger] shown[i], labels[i])
}

/// Whether no item shown has a name that reads as seconds.
pub open spec fn none_decodes(shown: Seq<Seq<char>>) -> bool {
    forall|i: int| 0 <= i < shown.len() ==> epoch_seconds(stamp_prefix_of(#[trigger] shown[i])) is None
}

/// The blocks depend on the labels only through the label of each item.
pub proof fn lemma_items_html_by_label(
    base: Seq<char>,
    names: Seq<Seq<char>>,
    first: Seq<Seq<char>>,
    second: Seq<Seq<char>>,
    count: nat,
)
    requires
        forall|i: int|
            0 <= i < count ==> #[trigger] label_at(names, first, i) == label_at(names, second, i),
    ensures
        items_html(base, names, first, count) == items_html(base, names, second, count),
    decreases count,
{
    if count > 0 {
        lemma_items_html_by_label(base, names, first, second, (count - 1) as nat);
        assert(label_at(names, first, count - 1) == label_at(names, second, count - 1));
    }
}

/// Where no item shown decodes, labels that fit change nothing: the
/// document is the one with every item under its name.
pub proof fn lemma_raw_labels(config: Config, names: Seq<Seq<char>>, labels: Seq<Seq<char>>, page: nat)
    requires
        labels_fit(shown_items(config, names, page), labels),
        none_decodes(shown_items(config, names, page)),
    ensures
        page_html(config, names, labels, page) == page_html(config, names, Seq::empty(), page),
{
    let shown = shown_items(config, names, page);
    assert forall|i: int| 0 <= i < shown.len() implies #[trigger] label_at(shown, labels, i)
        == label_at(shown, Seq::empty(), i) by {
        assert(is_label(shown[i], labels[i]));
    }
    lemma_items_html_by_label(config.uri_path@, shown, labels, Seq::empty(), shown.len());
}

/// Page zero is rendered as page one: the same items are shown, and with
/// the same labels the two documents are one. (The labels of names that
/// decode are written in the machine's time zone at each call.)
pub proof fn lemma_page_zero_is_page_one(
    config: Config,
    names: Seq<Seq<char>>,
    labels: Seq<Seq<char>>,
)
    ensures
        shown_items(config, names, 0) == shown_items(config, names, 1),
        page_html(config, names, labels, 0) == page_html(config, names, labels, 1),
{
}

/// Past the last page no item is shown and "next" is inert; so it is
/// wherever there are no pages at all.
pub proof fn lemma_beyond_last_page(
    config: Config,
    names: Seq<Seq<char>>,
    labels: Seq<Seq<char>>,
    page: nat,
)
    requires
        config.valid(),
        page > max_pages_of(names.len(), config.video_count as nat),
    ensures
        shown_items(config, names, page) == Seq::<Seq<char>>::empty(),
        next_html(
            config.uri_path@,
            effective_page_of(page),
            max_pages_of(names.len(), config.video_count as nat),
        ) == inert_html("next"@),
        items_html(
            config.uri_path@,
            shown_items(config, names, page),
            labels,
            shown_items(config, names, page).len(),
        ) == Seq::<char>::empty(),
{
    lemma_page_beyond_is_empty(names, config.video_count as nat, effective_page_of(page));
}

fn digit_str(d: u32) -> (r: &'static str)
    requires
        d < 10,
    ensures
        r@ == seq![digit_char(d as nat)],
{
    proof {
        reveal_strlit("0");
        reveal_strlit("1");
        reveal_strlit("2");
        reveal_strlit("3");
        reveal_strlit("4");
        reveal_strlit("5");
        reveal_strlit("6");
        reveal_strlit("7");
        reveal_strlit("8");
        reveal_strlit("9");
    }
    let r = if d == 0 {
        "0"
    } else if d == 1 {
        "1"
    } else if d == 2 {
        "2"
    } else if d == 3 {
        "3"
    } else if d == 4 {
        "4"
    } else if d == 5 {
        "5"
    } else if d == 6 {
        "6"
    } else if d == 7 {
        "7"
    } else if d == 8 {
        "8"
    } else {
        "9"
    };
    assert(r@ =~= seq![digit_char(d as nat)]);
    r
}

/// Writes a number in decimal.
pub fn decimal(n: u32) -> (r: String)
    ensures
        r@ == decimal_text(n as nat),
    decreases n,
{
    if n < 10 {
        String::from_str(digit_str(n))
    } else {
        let mut out = decimal(n / 10);
        out.append(digit_str(n % 10));
        out
    }
}

fn render_inert(text: &str) -> (r: String)
    ensures
        r@ == inert_html(text@),
{
    let mut out = String::from_str("<div class=\"navigation-c\">");
    out.append(text);
    out.append("</div>");
    out
}

fn render_link(path: &str, target: u32, text: &str) -> (r: String)
    ensures
        r@ == link_html(path@, target as nat, text@),
{
    let number = decimal(target);
    let mut out = String::from_str("<div class=\"navigation-c\"><a href=\"");
    out.append(path);
    out.append("?page=");
    out.append(number.as_str());
    out.append("\">");
    out.append(text);
    out.append("</a></div>");
    out
}

/// Renders the navigation block for page `page` of `max_pages`: "prev" is a
/// link unless this is the first page, "next" a link while a page follows.
pub fn render_navigation(path: &str, page: u16, max_pages: usize) -> (r: String)
    requires
        page >= 1,
    ensures
        r@ == nav_html(path@, page as nat, max_pages as nat),
{
    let number = decimal(page as u32);
    let prev = if page == 1 {
        render_inert("prev")
    } else {
        render_link(path, (page - 1) as u32, "prev")
    };
    let next = if (page as usize) < max_pages {
        render_link(path, page as u32 + 1, "next")
    } else {
        render_inert("next")
    };
    let mut out = String::from_str("      <div class=\"navigation-div\">");
    out.append(prev.as_str());
    out.append("<div class=\"navigation-c\"> PAGE ");
    out.append(number.as_str());
    out.append(" </div>");
    out.append(next.as_str());
    out.append("</div>\n");
    proof {
        assert(out@ =~= nav_html(path@, page as nat, max_pages as nat));
    }
    out
}

fn render_head(base: &str) -> (r: String)
    ensures
        r@ == head_html(base@),
{
    let mut out = String::from_str(
        "<!DOCTYPE html>\n<html>\n  <head>\n    <title>Video Server</title>\n    <meta charset=\"utf-8\">\n    <link rel=\"stylesheet\" type=\"text/css\" href=\"",
    );
    out.append(base);
    out.append("/static/style.css\">\n  </head>\n  <body>\n");
    out
}

fn render_item(base: &str, name: &str, label: &str) -> (r: String)
    ensures
        r@ == item_html(base@, name@, label@),
{
    let mut out = String::from_str(
        "      <div class=\"video-div\"><video class=\"video-el\" controls><source src=\"",
    );
    out.append(base);
    out.append("/video/");
    out.append(name);
    out.append("\"/></video></div>\n");
    out.append("      <div class=\"link-div\"><a href=\"");
    out.append(base);
    out.append("/video/");
    out.append(name);
    out.append("\">");
    out.append(label);
    out.append("</a></div>\n");
    out
}

/// Renders page `page` of the listing `files`. `labels` runs beside the
/// items of that page; an item without a label is shown under its name.
pub fn render_page(files: &Vec<String>, labels: &Vec<String>, config: &Config, page: u16) -> (r:
    String)
    requires
        config.valid(),
    ensures
        r@ == page_html(*config, texts(files@), texts(labels@), page as nat),
{
    let base = config.uri_path.as_str();
    let slice = paginate(files.len(), config.video_count, page);
    let navigation = render_navigation(base, slice.effective_page, slice.max_pages);
    let mut out = render_head(base);
    out.append("    <div class=\"main-div\">\n");
    out.append("      <div><h1>");
    out.append(config.instance_name.as_str());
    out.append("</div>\n");
    out.append(navigation.as_str());
    let ghost shown = shown_items(*config, texts(files@), page as nat);
    let ghost front = head_html(config.uri_path@) + "    <div class=\"main-div\">\n"@
        + heading_html(config.instance_name@) + nav_html(
        config.uri_path@,
        effective_page_of(page as nat),
        max_pages_of(files@.len(), config.video_count as nat),
    );
    proof {
        assert(out@ =~= front);
        assert(out@ =~= front + items_html(base@, shown, texts(labels@), 0));
    }
    let mut i: usize = slice.items_start;
    while i < slice.items_end
        invariant
            slice.items_start <= i <= slice.items_end <= files@.len(),
            base@ == config.uri_path@,
            shown == texts(files@).subrange(slice.items_start as int, slice.items_end as int),
            out@ == front + items_html(
                base@,
                shown,
                texts(labels@),
                (i - slice.items_start) as nat,
            ),
        decreases slice.items_end - i,
    {
        let k: usize = i - slice.items_start;
        let name = files[i].as_str();
        let item = if k < labels.len() {
            render_item(base, name, labels[k].as_str())
        } else {
            render_item(base, name, name)
        };
        proof {
            assert(shown[k as int] == name@);
            assert(label_at(shown, texts(labels@), k as int) == if k < labels@.len() {
                labels@[k as int]@
            } else {
                name@
            });
            assert(out@ + item@ =~= front + items_html(base@, shown, texts(labels@), (k + 1) as nat));
        }
        out.append(item.as_str());
        i += 1;
    }
    out.append("    </div>\n");
    out.append("  </body>\n</html>\n");
    out
}

/// Decodes a label for each item that page `page` of `files` shows.
pub fn page_labels(files: &Vec<String>, config: &Config, page: u16) -> (labels: Vec<String>)
    requires
        config.valid(),
    ensures
        labels_fit(shown_items(*config, texts(files@), page as nat), texts(labels@)),
{
    let slice = paginate(files.len(), config.video_count, page);
    let ghost shown = shown_items(*config, texts(files@), page as nat);
    let mut labels: Vec<String> = Vec::new();
    let mut i: usize = slice.items_start;
    while i < slice.items_end
        invariant
            slice.items_start <= i <= slice.items_end <= files@.len(),
            shown == texts(files@).subrange(slice.items_start as int, slice.items_end as int),
            labels@.len() == i - slice.items_start,
            forall|j: int| 0 <= j < labels@.len() ==> is_label(#[trigger] shown[j], labels@[j]@),
        decreases slice.items_end - i,
    {
        let label = parse_ts(files[i].as_str());
        proof {
            assert(shown[i - slice.items_start] == files@[i as int]@);
        }
        labels.push(label);
        i += 1;
    }
    labels
}

/// Renders the gallery page `page` of the listing `files`: the document's
/// head, the heading, the navigation, and for each item of the page a player
/// and a link, labelled with the decoded time where the configuration asks
/// for it and the name decodes, else with the name.
pub fn render_list(files: Vec<String>, config: &Config, page: u16) -> (r: String)
    requires
        config.valid(),
    ensures
        !config.parse_timestamps ==> r@ == page_html(
            *config,
            texts(files@),
            Seq::empty(),
            page as nat,
        ),
        config.parse_timestamps ==> exists|labels: Seq<Seq<char>>|
            labels_fit(shown_items(*config, texts(files@), page as nat), labels) && r@
                == #[trigger] page_html(*config, texts(files@), labels, page as nat),
        none_decodes(shown_items(*config, texts(files@), page as nat)) ==> r@ == page_html(
            *config,
            texts(files@),
            Seq::empty(),
            page as nat,
        ),
{
    let labels = if config.parse_timestamps {
        page_labels(&files, config, page)
    } else {
        Vec::new()
    };
    proof {
        if !config.parse_timestamps {
            assert(texts(labels@) =~= Seq::empty());
        } else if none_decodes(shown_items(*config, texts(files@), page as nat)) {
            lemma_raw_labels(*config, texts(files@), texts(labels@), page as nat);
        }
    }
    render_page(&files, &labels, config, page)
}

} // verus!
