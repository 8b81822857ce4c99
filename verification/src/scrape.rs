//! The document scraper: reads a vendor-grouped HTML listing into
//! `DeveloperDevice` records. The HTML tree walk itself is delegated to the
//! `scraper` crate behind one trusted extractor; everything the pipeline
//! decides about the extracted text — which groups count, when a missing
//! device label is fatal, how the URL is derived — is verified here.

use crate::device::{device_url_of, DeveloperDevice};
use crate::text::{
    _sanitise_device_name, _sanitise_vendor_name, replace_hyphens, strip_whitespace,
};
use vstd::prelude::*;

verus! {

/// The raw text a vendor group contributes: the concatenated text of its
/// heading element, if it has one, and, for each device-button element in
/// the group, the element's first text node, if it has one.
pub struct VendorGroup {
    pub heading: Option<String>,
    pub device_texts: Vec<Option<String>>,
}

/// A vendor group reduced to plain sequences: the heading text and the
/// device-button texts.
pub open spec fn text_model(t: Option<String>) -> Option<Seq<char>> {
    match t {
        Some(s) => Some(s@),
        None => None,
    }
}

/// The device-button texts of one group, as plain sequences.
pub open spec fn texts_model(ts: Seq<Option<String>>) -> Seq<Option<Seq<char>>>
    decreases ts.len(),
{
    if ts.len() == 0 {
        Seq::empty()
    } else {
        texts_model(ts.drop_last()).push(text_model(ts.last()))
    }
}

/// One vendor group as plain sequences.
pub open spec fn group_model(g: VendorGroup) -> (Option<Seq<char>>, Seq<Option<Seq<char>>>) {
    (text_model(g.heading), texts_model(g.device_texts@))
}

/// A whole extracted document as plain sequences, in document order.
pub open spec fn groups_model(gs: Seq<VendorGroup>) -> Seq<
    (Option<Seq<char>>, Seq<Option<Seq<char>>>),
>
    decreases gs.len(),
{
    if gs.len() == 0 {
        Seq::empty()
    } else {
        groups_model(gs.drop_last()).push(group_model(gs.last()))
    }
}

pub proof fn lemma_texts_model_index(ts: Seq<Option<String>>)
    ensures
        texts_model(ts).len() == ts.len(),
        forall|i: int| 0 <= i < ts.len() ==> texts_model(ts)[i] == text_model(#[trigger] ts[i]),
    decreases ts.len(),
{
    if ts.len() > 0 {
        lemma_texts_model_index(ts.drop_last());
        assert forall|i: int| 0 <= i < ts.len() implies texts_model(ts)[i] == text_model(
            #[trigger] ts[i],
        ) by {
            if i < ts.len() - 1 {
                assert(texts_model(ts)[i] == texts_model(ts.drop_last())[i]);
                assert(ts.drop_last()[i] == ts[i]);
            } else {
                assert(texts_model(ts)[i] == text_model(ts.last()));
            }
        }
    }
}

pub proof fn lemma_groups_model_index(gs: Seq<VendorGroup>)
    ensures
        groups_model(gs).len() == gs.len(),
        forall|i: int| 0 <= i < gs.len() ==> groups_model(gs)[i] == group_model(#[trigger] gs[i]),
    decreases gs.len(),
{
    if gs.len() > 0 {
        lemma_groups_model_index(gs.drop_last());
        assert forall|i: int| 0 <= i < gs.len() implies groups_model(gs)[i] == group_model(
            #[trigger] gs[i],
        ) by {
            if i < gs.len() - 1 {
                assert(groups_model(gs)[i] == groups_model(gs.drop_last())[i]);
                assert(gs.drop_last()[i] == gs[i]);
            } else {
                assert(groups_model(gs)[i] == group_model(gs.last()));
            }
        }
    }
}

/// The scrape succeeds exactly when every device-button element inside a
/// group that has a heading carries a text label.
pub open spec fn scrape_ok(gs: Seq<(Option<Seq<char>>, Seq<Option<Seq<char>>>)>) -> bool {
    forall|i: int, j: int|
        0 <= i < gs.len() && gs[i].0 is Some && 0 <= j < gs[i].1.len() ==> (#[trigger] gs[i].1[j])
            is Some
}

/// The (vendor, device-name) pairs one group contributes: none when the
/// group has no heading, otherwise one pair per labelled device button.
pub open spec fn group_rows(heading: Option<Seq<char>>, texts: Seq<Option<Seq<char>>>) -> Seq<
    (Seq<char>, Seq<char>),
>
    decreases texts.len(),
{
    match heading {
        None => Seq::empty(),
        Some(v) => if texts.len() == 0 {
            Seq::empty()
        } else {
            group_rows(heading, texts.drop_last()) + (match texts.last() {
                Some(n) => seq![(v, n)],
                None => Seq::empty(),
            })
        },
    }
}

/// The (vendor, device-name) pairs of a whole document, in document order.
pub open spec fn scraped_rows(gs: Seq<(Option<Seq<char>>, Seq<Option<Seq<char>>>)>) -> Seq<
    (Seq<char>, Seq<char>),
>
    decreases gs.len(),
{
    if gs.len() == 0 {
        Seq::empty()
    } else {
        scraped_rows(gs.drop_last()) + group_rows(gs.last().0, gs.last().1)
    }
}

/// What one scraped record owes to its source texts: the raw vendor and
/// device name, and the URL built from the sanitized pair.
pub open spec fn dev_matches(d: DeveloperDevice, vendor: Seq<char>, name: Seq<char>) -> bool {
    &&& d.vendor@ == vendor
    &&& d.name@ == name
    &&& d.url@ == device_url_of(replace_hyphens(name), strip_whitespace(vendor))
}

/// The scraped records correspond one to one, in order, to the expected
/// (vendor, device-name) pairs.
pub open spec fn devs_match(ds: Seq<DeveloperDevice>, rows: Seq<(Seq<char>, Seq<char>)>) -> bool {
    &&& ds.len() == rows.len()
    &&& forall|i: int| 0 <= i < ds.len() ==> dev_matches(#[trigger] ds[i], rows[i].0, rows[i].1)
}

/// The scrape's one fatal condition.
#[derive(Clone, Copy, Debug, PartialEq, Eq, Structural)]
pub enum ScrapeError {
    /// A device-button element inside a vendor group carried no text node.
    MissingDeviceText,
}

/// What the document parser extracts from the given HTML text: one entry
/// per vendor-group element (`.App-intro>div>div`), holding the group's
/// heading text (`.expander-link>h3`, concatenated text) and the first text
/// node of each of its device buttons (`.device-button`). A function of the
/// document text alone.
pub uninterp spec fn vendor_groups_of(doc: Seq<char>) -> Seq<
    (Option<Seq<char>>, Seq<Option<Seq<char>>>),
>;

/// Relies on scraper's `Html::parse_document`, `Selector::parse` and the
/// `select`/`text` traversal: parses the document and reads out, per
/// vendor-group element, the heading text and each device button's first
/// text node, in document order.
#[verifier::external_body]
fn extract_groups(html: &str) -> (r: Vec<VendorGroup>)
    ensures
        groups_model(r@) == vendor_groups_of(html@),
{
    let document = scraper::Html::parse_document(html);
    let group_sel = scraper::Selector::parse(".App-intro>div>div").unwrap();
    let heading_sel = scraper::Selector::parse(".expander-link>h3").unwrap();
    let button_sel = scraper::Selector::parse(".device-button").unwrap();
    document
        .select(&group_sel)
        .map(|group| VendorGroup {
            heading: group.select(&heading_sel).next().map(|h| h.text().collect()),
            device_texts: group
                .select(&button_sel)
                .map(|b| b.text().next().map(|t| t.to_string()))
                .collect(),
        })
        .collect()
}

/// Turns extracted vendor groups into scraped device records: groups
/// without a heading are skipped whole; a device button without a text
/// label is fatal; every other device button yields one record, in document
/// order, with the URL derived from the sanitized name and vendor.
pub fn devices_from_groups(groups: Vec<VendorGroup>) -> (r: Result<
    Vec<DeveloperDevice>,
    ScrapeError,
>)
    ensures
        match r {
            Ok(devs) => scrape_ok(groups_model(groups@)) && devs_match(
                devs@,
                scraped_rows(groups_model(groups@)),
            ),
            Err(e) => !scrape_ok(groups_model(groups@)) && e == ScrapeError::MissingDeviceText,
        },
{
    let ghost m = groups_model(groups@);
    proof {
        lemma_groups_model_index(groups@);
        assert(scraped_rows(m.take(0)) =~= Seq::<(Seq<char>, Seq<char>)>::empty());
    }
    let mut out: Vec<DeveloperDevice> = Vec::new();
    let mut gi: usize = 0;
    while gi < groups.len()
        invariant
            gi <= groups@.len(),
            m == groups_model(groups@),
            m.len() == groups@.len(),
            forall|i: int| 0 <= i < groups@.len() ==> m[i] == group_model(#[trigger] groups@[i]),
            scrape_ok(m.take(gi as int)),
            devs_match(out@, scraped_rows(m.take(gi as int))),
        decreases groups@.len() - gi,
    {
        if groups[gi].heading.is_some() {
            let vendor: String = groups[gi].heading.as_ref().unwrap().clone();
            let ghost tm = texts_model(groups@[gi as int].device_texts@);
            proof {
                lemma_texts_model_index(groups@[gi as int].device_texts@);
                assert(m[gi as int].0 == Some(vendor@));
                assert(m[gi as int].1 == tm);
                assert(group_rows(Some(vendor@), tm.take(0)) =~= Seq::<
                    (Seq<char>, Seq<char>),
                >::empty());
                assert(scraped_rows(m.take(gi as int)) + group_rows(Some(vendor@), tm.take(0))
                    =~= scraped_rows(m.take(gi as int)));
            }
            let mut ti: usize = 0;
            while ti < groups[gi].device_texts.len()
                invariant
                    gi < groups@.len(),
                    ti <= groups@[gi as int].device_texts@.len(),
                    m == groups_model(groups@),
                    m.len() == groups@.len(),
                    forall|i: int|
                        0 <= i < groups@.len() ==> m[i] == group_model(#[trigger] groups@[i]),
                    tm == texts_model(groups@[gi as int].device_texts@),
                    tm.len() == groups@[gi as int].device_texts@.len(),
                    forall|j: int|
                        0 <= j < tm.len() ==> tm[j] == text_model(
                            #[trigger] groups@[gi as int].device_texts@[j],
                        ),
                    m[gi as int].0 == Some(vendor@),
                    m[gi as int].1 == tm,
                    scrape_ok(m.take(gi as int)),
                    forall|j: int| 0 <= j < ti ==> (#[trigger] tm[j]) is Some,
                    devs_match(
                        out@,
                        scraped_rows(m.take(gi as int)) + group_rows(
                            Some(vendor@),
                            tm.take(ti as int),
                        ),
                    ),
                decreases groups@[gi as int].device_texts@.len() - ti,
            {
                if groups[gi].device_texts[ti].is_none() {
                    proof {
                        assert(tm[ti as int] is None);
                        assert(!scrape_ok(m)) by {
                            if scrape_ok(m) {
                                assert(m[gi as int].1[ti as int] is Some);
                            }
                        }
                    }
                    return Err(ScrapeError::MissingDeviceText);
                }
                let name: String = groups[gi].device_texts[ti].as_ref().unwrap().clone();
                let url = _build_device_url_from_raw(&name, &vendor);
                out.push(DeveloperDevice { vendor: vendor.clone(), name, url });
                proof {
                    assert(tm.take(ti + 1).drop_last() =~= tm.take(ti as int));
                    assert(tm.take(ti + 1).last() == tm[ti as int]);
                    assert(tm[ti as int] == Some(name@));
                    assert(group_rows(Some(vendor@), tm.take(ti + 1)) == group_rows(
                        Some(vendor@),
                        tm.take(ti as int),
                    ) + seq![(vendor@, name@)]);
                    assert(scraped_rows(m.take(gi as int)) + group_rows(
                        Some(vendor@),
                        tm.take(ti + 1),
                    ) =~= (scraped_rows(m.take(gi as int)) + group_rows(
                        Some(vendor@),
                        tm.take(ti as int),
                    )).push((vendor@, name@)));
                }
                ti = ti + 1;
            }
            proof {
                assert(tm.take(tm.len() as int) =~= tm);
                lemma_step_group(m, gi as int);
                assert(scrape_ok(m.take(gi + 1))) by {
                    lemma_ok_extend(m, gi as int);
                }
            }
        } else {
            proof {
                assert(m[gi as int].0 is None);
                lemma_step_group(m, gi as int);
                assert(group_rows(m[gi as int].0, m[gi as int].1) =~= Seq::<
                    (Seq<char>, Seq<char>),
                >::empty());
                assert(scraped_rows(m.take(gi + 1)) =~= scraped_rows(m.take(gi as int)));
                assert(scrape_ok(m.take(gi + 1))) by {
                    lemma_ok_extend(m, gi as int);
                }
            }
        }
        gi = gi + 1;
    }
    proof {
        assert(m.take(m.len() as int) =~= m);
    }
    Ok(out)
}

/// Sanitizes the raw device name and vendor name and formats the URL.
fn _build_device_url_from_raw(name: &String, vendor: &String) -> (r: String)
    ensures
        r@ == device_url_of(replace_hyphens(name@), strip_whitespace(vendor@)),
{
    crate::device::_build_device_url(
        _sanitise_device_name(name.clone()),
        _sanitise_vendor_name(vendor.clone()),
    )
}

/// One step of the document fold: the rows of a one-longer prefix are the
/// rows so far plus the next group's rows.
proof fn lemma_step_group(m: Seq<(Option<Seq<char>>, Seq<Option<Seq<char>>>)>, gi: int)
    requires
        0 <= gi < m.len(),
    ensures
        scraped_rows(m.take(gi + 1)) == scraped_rows(m.take(gi)) + group_rows(m[gi].0, m[gi].1),
{
    assert(m.take(gi + 1).drop_last() =~= m.take(gi));
    assert(m.take(gi + 1).last() == m[gi]);
}

/// A prefix that scrapes cleanly stays clean when the next group's device
/// buttons are all labelled.
proof fn lemma_ok_extend(m: Seq<(Option<Seq<char>>, Seq<Option<Seq<char>>>)>, gi: int)
    requires
        0 <= gi < m.len(),
        scrape_ok(m.take(gi)),
        m[gi].0 is Some ==> forall|j: int| 0 <= j < m[gi].1.len() ==> (#[trigger] m[gi].1[j])
            is Some,
    ensures
        scrape_ok(m.take(gi + 1)),
{
    let p = m.take(gi + 1);
    assert forall|i: int, j: int|
        0 <= i < p.len() && p[i].0 is Some && 0 <= j < p[i].1.len() implies (#[trigger] p[i].1[j])
        is Some by {
        if i < gi {
            assert(m.take(gi)[i] == p[i]);
            assert(m.take(gi)[i].1[j] is Some);
        } else {
            assert(p[i] == m[gi]);
        }
    }
}

/// Scrapes the HTML document: parses it, selects the vendor groups, and
/// produces one record per labelled device button of each headed group, in
/// document order. A device button without a text label is fatal.
pub fn scrape_developer_devices(html: &str) -> (r: Result<Vec<DeveloperDevice>, ScrapeError>)
    ensures
        match r {
            Ok(devs) => scrape_ok(vendor_groups_of(html@)) && devs_match(
                devs@,
                scraped_rows(vendor_groups_of(html@)),
            ),
            Err(e) => !scrape_ok(vendor_groups_of(html@)) && e == ScrapeError::MissingDeviceText,
        },
{
    let groups = extract_groups(html);
    devices_from_groups(groups)
}

} // verus!
