//! The render orchestrator: which files migrate, which locales and sections a
//! pass renders, which output page each template or content item becomes,
//! and how a rendered page is finished.

use vstd::prelude::*;
use vstd::string::*;
use workflow_i18n::i18n::Languages;
use std::collections::HashMap;
use std::error::Error as StdError;
use crate::error::Error;
use crate::filter::{any_matches, Filter};
use crate::paths::{
    file_name, file_name_of, hidden_path, is_hidden, is_under,
    root_folder, root_folder_of, trim_end_slashes, trim_trailing_slashes, under, with_html_ext,
    with_html_extension,
};
use crate::server::{contains_text, listed_text, text_eq, views};
use crate::text::{ends_with, ends_with_exec, replace_all, replace_all_exec};

verus! {

/// Display name of a language code in workflow-i18n's built-in table.
pub uninterp spec fn language_title_of(code: Seq<char>) -> Option<Seq<char>>;

/// Relies on `workflow_i18n::i18n::Languages::default`: its fixed table of
/// language codes and display names, looked up by code.
#[verifier::external_body]
fn language_title(code: &str) -> (r: Option<String>)
    ensures
        match r {
            Some(n) => language_title_of(code@) == Some(n@),
            None => language_title_of(code@) is None,
        },
{
    match Languages::default().into_inner().get(code) {
        Some(name) => Some(name.to_string()),
        None => None,
    }
}

/// A locale and its display name.
pub struct Language {
    pub locale: String,
    pub name: String,
}

/// One locale a pass renders into: the URL prefix, the output subfolder (none
/// when no locales are configured) and the language.
pub struct LocaleTarget {
    pub url_prefix: String,
    pub folder: Option<String>,
    pub language: Language,
}

/// The view of an optional string.
pub open spec fn opt_view(o: Option<String>) -> Option<Seq<char>> {
    match o {
        Some(s) => Some(s@),
        None => None,
    }
}

/// Some configured locale has no display name.
pub open spec fn has_unknown_locale(ls: Seq<String>) -> bool {
    exists|i: int| 0 <= i < ls.len() && (#[trigger] language_title_of(ls[i]@)) is None
}

/// The locale at `i` is the first one without a display name.
pub open spec fn first_unknown_locale(ls: Seq<String>, i: int) -> bool {
    &&& (language_title_of(ls[i]@)) is None
    &&& forall|j: int| 0 <= j < i ==> (#[trigger] language_title_of(ls[j]@)) is Some
}

/// The targets of a locale list in which every locale is known.
pub open spec fn targets_of_locales(ls: Seq<String>, ts: Seq<LocaleTarget>) -> bool {
    &&& ts.len() == ls.len()
    &&& forall|k: int|
        0 <= k < ls.len() ==> {
            &&& (#[trigger] ts[k]).url_prefix@ == "/"@ + ls[k]@ + "/"@
            &&& opt_view(ts[k].folder) == Some(ls[k]@)
            &&& ts[k].language.locale@ == ls[k]@
            &&& language_title_of(ls[k]@) == Some(ts[k].language.name@)
        }
}

/// The locales a pass renders into. Without configured locales there is one
/// target, English, at the site root; an empty list, or a locale without a
/// display name, is a configuration error.
pub fn locale_targets(languages: &Option<Vec<String>>) -> (r: Result<Vec<LocaleTarget>, Error>)
    ensures
        match languages {
            None => r matches Ok(ts) && ts@.len() == 1 && ts@[0].url_prefix@ == "/"@
                && ts@[0].folder is None && ts@[0].language.locale@ == "en"@
                && ts@[0].language.name@ == "English"@,
            Some(ls) => {
                &&& (r is Err <==> (ls@.len() == 0 || has_unknown_locale(ls@)))
                &&& (r matches Ok(ts) ==> targets_of_locales(ls@, ts@))
                &&& (ls@.len() == 0 ==> (r matches Err(Error::String(m)) && m@ == "Please provide any language or disable `settings.languages` from `wahoo.toml`"@))
                &&& (ls@.len() > 0 && has_unknown_locale(ls@) ==> (r matches Err(Error::String(m))
                    && exists|i: int|
                    0 <= i < ls@.len() && first_unknown_locale(ls@, i) && m@ == "Unknown language: "@
                        + ls@[i]@))
            },
        },
{
    match languages {
        None => {
            let mut ts: Vec<LocaleTarget> = Vec::new();
            ts.push(
                LocaleTarget {
                    url_prefix: String::from_str("/"),
                    folder: None,
                    language: Language {
                        locale: String::from_str("en"),
                        name: String::from_str("English"),
                    },
                },
            );
            Ok(ts)
        },
        Some(ls) => {
            if ls.len() == 0 {
                return Err(Error::String(String::from_str("Please provide any language or disable `settings.languages` from `wahoo.toml`")));
            }
            let mut ts: Vec<LocaleTarget> = Vec::new();
            let mut i: usize = 0;
            while i < ls.len()
                invariant
                    i <= ls@.len(),
                    *languages == Some(*ls),
                    ts@.len() == i,
                    forall|k: int|
                        0 <= k < i ==> {
                            &&& (#[trigger] ts@[k]).url_prefix@ == "/"@ + ls@[k]@ + "/"@
                            &&& opt_view(ts@[k].folder) == Some(ls@[k]@)
                            &&& ts@[k].language.locale@ == ls@[k]@
                            &&& language_title_of(ls@[k]@) == Some(ts@[k].language.name@)
                        },
                decreases ls@.len() - i,
            {
                let locale = &ls[i];
                match language_title(locale.as_str()) {
                    Some(name) => {
                        let mut prefix = String::from_str("/");
                        prefix.append(locale.as_str());
                        prefix.append("/");
                        ts.push(
                            LocaleTarget {
                                url_prefix: prefix,
                                folder: Some(locale.clone()),
                                language: Language { locale: locale.clone(), name },
                            },
                        );
                    },
                    None => {
                        let mut m = String::from_str("Unknown language: ");
                        m.append(locale.as_str());
                        assert(has_unknown_locale(ls@)) by {
                            assert(language_title_of(ls@[i as int]@) is None);
                        }
                        assert(first_unknown_locale(ls@, i as int)) by {
                            assert forall|j: int| 0 <= j < i implies (#[trigger] language_title_of(
                                ls@[j]@,
                            )) is Some by {
                                assert(language_title_of(ls@[j]@) == Some(ts@[j].language.name@));
                            }
                        }
                        return Err(Error::String(m));
                    },
                }
                i = i + 1;
            }
            assert(!has_unknown_locale(ls@)) by {
                if has_unknown_locale(ls@) {
                    let k = choose|k: int|
                        0 <= k < ls@.len() && (#[trigger] language_title_of(ls@[k]@)) is None;
                    assert(language_title_of(ls@[k]@) == Some(ts@[k].language.name@));
                }
            }
            Ok(ts)
        },
    }
}

/// Settings of a section, as the section's manifest gives them.
pub struct SectionSettings {
    pub title: Option<String>,
    pub folder: Option<String>,
    pub index: Option<String>,
    pub template: Option<String>,
    pub enumerate: Option<bool>,
}

/// A section bound to a folder of content items: each item becomes one page
/// per locale, rendered through the section's template.
pub struct SectionInfo {
    pub name: String,
    pub template_file: String,
    /// Source folder of the items, relative to the project, without trailing separators.
    pub folder: String,
    /// The items, relative to the project.
    pub files: Vec<String>,
}

/// A section enumerates its items when so configured, with `.html` template and
/// index files and a folder.
pub open spec fn enumerates(s: SectionSettings) -> bool {
    &&& s.enumerate == Some(true)
    &&& s.template matches Some(t) && ends_with(t@, ".html"@)
    &&& s.index matches Some(x) && ends_with(x@, ".html"@)
    &&& s.folder is Some
}

/// Content items are Markdown or HTML files, hidden ones excluded.
pub open spec fn is_content_item(p: Seq<char>) -> bool {
    (ends_with(p, ".md"@) || ends_with(p, ".html"@)) && !hidden_path(p)
}

/// The content items among the first `n` walked paths, in order.
pub open spec fn content_items(walked: Seq<String>, n: int) -> Seq<Seq<char>>
    decreases n,
{
    if n <= 0 || n > walked.len() {
        Seq::empty()
    } else if is_content_item(walked[n - 1]@) {
        content_items(walked, n - 1).push(walked[n - 1]@)
    } else {
        content_items(walked, n - 1)
    }
}

/// The folder whose items an enumerating section lists (to be walked by the caller).
pub fn enumerated_folder(s: &SectionSettings) -> (r: Option<String>)
    ensures
        match r {
            Some(f) => enumerates(*s) && f@ == trim_end_slashes(s.folder->Some_0@),
            None => !enumerates(*s),
        },
{
    match (&s.enumerate, &s.template, &s.index, &s.folder) {
        (Some(true), Some(t), Some(x), Some(f)) => {
            if ends_with_exec(t.as_str(), ".html") && ends_with_exec(x.as_str(), ".html") {
                Some(trim_trailing_slashes(f.as_str()))
            } else {
                None
            }
        },
        _ => None,
    }
}

/// The section `name` with `s`'s settings, its items picked from the paths
/// walked under its folder; `None` when the section does not enumerate.
pub fn section_info(name: &String, s: &SectionSettings, walked: &Vec<String>) -> (r: Option<
    SectionInfo,
>)
    ensures
        match r {
            Some(info) => {
                &&& enumerates(*s)
                &&& info.name@ == name@
                &&& info.template_file@ == s.template->Some_0@
                &&& info.folder@ == trim_end_slashes(s.folder->Some_0@)
                &&& views(info.files@) == content_items(walked@, walked@.len() as int)
            },
            None => !enumerates(*s),
        },
{
    let folder = match enumerated_folder(s) {
        Some(f) => f,
        None => {
            return None;
        },
    };
    let template_file = match &s.template {
        Some(t) => t.clone(),
        None => {
            return None;
        },
    };
    let mut files: Vec<String> = Vec::new();
    let mut i: usize = 0;
    while i < walked.len()
        invariant
            i <= walked@.len(),
            views(files@) == content_items(walked@, i as int),
        decreases walked@.len() - i,
    {
        let p = walked[i].as_str();
        if (ends_with_exec(p, ".md") || ends_with_exec(p, ".html")) && !is_hidden(p) {
            let ghost before = files@;
            files.push(walked[i].clone());
            assert(views(files@) =~= views(before).push(walked@[i as int]@));
        }
        i = i + 1;
    }
    Some(SectionInfo { name: name.clone(), template_file, folder, files })
}

/// The globs a pass never renders: the configured ignores, the redirecting
/// index page, and the sections' templates.
pub fn exclude_globs(ignore: &Option<Vec<String>>, sections: &Vec<SectionInfo>) -> (r: Vec<String>)
    ensures
        views(r@) == (match ignore {
            Some(l) => views(l@),
            None => Seq::empty(),
        }).push("__INDEX__.html"@) + views(sections@.map_values(|s: SectionInfo| s.template_file)),
{
    let mut r: Vec<String> = Vec::new();
    match ignore {
        Some(l) => {
            let mut i: usize = 0;
            while i < l.len()
                invariant
                    i <= l@.len(),
                    views(r@) == views(l@.subrange(0, i as int)),
                decreases l@.len() - i,
            {
                let ghost before = r@;
                r.push(l[i].clone());
                assert(views(r@) =~= views(before).push(l@[i as int]@));
                assert(views(l@.subrange(0, i + 1)) =~= views(l@.subrange(0, i as int)).push(
                    l@[i as int]@,
                ));
                i = i + 1;
            }
            assert(l@.subrange(0, l@.len() as int) =~= l@);
        },
        None => {
            assert(views(r@) =~= Seq::<Seq<char>>::empty());
        },
    }
    r.push(String::from_str("__INDEX__.html"));
    let ghost base = views(r@);
    let mut j: usize = 0;
    while j < sections.len()
        invariant
            j <= sections@.len(),
            views(r@) == base + views(
                sections@.subrange(0, j as int).map_values(|s: SectionInfo| s.template_file),
            ),
        decreases sections@.len() - j,
    {
        let ghost before = r@;
        r.push(sections[j].template_file.clone());
        assert(views(r@) =~= views(before).push(sections@[j as int].template_file@));
        assert(views(sections@.subrange(0, j + 1).map_values(|s: SectionInfo| s.template_file))
            =~= views(
            sections@.subrange(0, j as int).map_values(|s: SectionInfo| s.template_file),
        ).push(sections@[j as int].template_file@));
        assert(views(r@) =~= base + views(
            sections@.subrange(0, j + 1).map_values(|s: SectionInfo| s.template_file),
        ));
        j = j + 1;
    }
    assert(sections@.subrange(0, sections@.len() as int) =~= sections@);
    r
}

/// An entry of the source tree walk: its path relative to the source folder.
pub struct SourceEntry {
    pub relative: String,
    pub is_file: bool,
}

/// A walked entry is migrated (copied as is) when it is a visible file that
/// is not a template (`templates`) and not ignored (`exclude`).
pub open spec fn migrates(e: SourceEntry, templates: Seq<Seq<char>>, exclude: Seq<Seq<char>>) -> bool {
    &&& e.relative@.len() > 0
    &&& !hidden_path(e.relative@)
    &&& e.is_file
    &&& !any_matches(templates, e.relative@)
    &&& !any_matches(exclude, e.relative@)
}

/// The migrated paths among the first `n` entries, in order.
pub open spec fn migrated_paths(
    es: Seq<SourceEntry>,
    templates: Seq<Seq<char>>,
    exclude: Seq<Seq<char>>,
    n: int,
) -> Seq<Seq<char>>
    decreases n,
{
    if n <= 0 || n > es.len() {
        Seq::empty()
    } else if migrates(es[n - 1], templates, exclude) {
        migrated_paths(es, templates, exclude, n - 1).push(es[n - 1].relative@)
    } else {
        migrated_paths(es, templates, exclude, n - 1)
    }
}

/// The non-template files of a source walk, to hand to the migration cache.
pub fn select_sources(entries: &Vec<SourceEntry>, templates: &Filter, exclude: &Filter) -> (r: Vec<
    String,
>)
    ensures
        views(r@) == migrated_paths(
            entries@,
            templates.patterns(),
            exclude.patterns(),
            entries@.len() as int,
        ),
{
    let mut r: Vec<String> = Vec::new();
    let mut i: usize = 0;
    while i < entries.len()
        invariant
            i <= entries@.len(),
            views(r@) == migrated_paths(entries@, templates.patterns(), exclude.patterns(), i as int),
        decreases entries@.len() - i,
    {
        let e = &entries[i];
        let rel = e.relative.as_str();
        if rel.unicode_len() > 0 && !is_hidden(rel) && e.is_file && !templates.is_match(rel)
            && !exclude.is_match(rel) {
            let ghost before = r@;
            r.push(e.relative.clone());
            assert(views(r@) =~= views(before).push(e.relative@));
        }
        i = i + 1;
    }
    r
}

/// What a Markdown file hands to the content-wrapper template.
pub struct ContentFile {
    pub file_name: String,
    pub file_path: String,
    pub file_id: String,
    pub file: String,
}

/// One page to render: `template` rendered for locale target `target` into
/// `destination` (relative to that target's output folder).
pub struct RenderJob {
    pub template: String,
    pub destination: String,
    pub target: usize,
    /// The content item of a section page, as the template sees it.
    pub section_file: Option<String>,
    /// The Markdown file a content-wrapper page renders.
    pub content: Option<ContentFile>,
}

/// A render job as plain values: template, destination, target, section item
/// and content arguments (file name, path, id, stem).
pub type JobView = (Seq<char>, Seq<char>, int, Option<Seq<char>>, Option<Seq<Seq<char>>>);

pub open spec fn content_view(c: Option<ContentFile>) -> Option<Seq<Seq<char>>> {
    match c {
        Some(c) => Some(seq![c.file_name@, c.file_path@, c.file_id@, c.file@]),
        None => None,
    }
}

pub open spec fn job_view(j: RenderJob) -> JobView {
    (j.template@, j.destination@, j.target as int, opt_view(j.section_file), content_view(j.content))
}

pub open spec fn job_views(js: Seq<RenderJob>) -> Seq<JobView> {
    js.map_values(|j: RenderJob| job_view(j))
}

/// The content arguments of Markdown template `t`.
pub open spec fn content_args(t: Seq<char>) -> Seq<Seq<char>> {
    seq![
        file_name_of(t),
        t,
        replace_all(replace_all(t, "/"@, "-"@), ".md"@, ""@),
        replace_all(file_name_of(t), ".md"@, ""@),
    ]
}

/// The first section at or after `k` whose template lies in folder `root`.
pub open spec fn find_section(secs: Seq<SectionInfo>, root: Seq<char>, k: int) -> Option<int>
    decreases secs.len() - k,
{
    if k < 0 || k >= secs.len() {
        None
    } else if root_folder_of(secs[k].template_file@) == Some(root) {
        Some(k)
    } else {
        find_section(secs, root, k + 1)
    }
}

/// The page of a section item: the section's name in place of its source
/// folder, with an `html` extension; none for an item outside the folder.
pub open spec fn section_page(name: Seq<char>, folder: Seq<char>, f: Seq<char>) -> Option<Seq<char>> {
    if under(folder, f) {
        Some(with_html_ext(name + "/"@ + f.subrange(folder.len() as int + 1, f.len() as int)))
    } else {
        None
    }
}

/// One job per locale target.
pub open spec fn fan_out(
    t: Seq<char>,
    dest: Seq<char>,
    n: int,
    section_file: Option<Seq<char>>,
    content: Option<Seq<Seq<char>>>,
) -> Seq<JobView> {
    Seq::new(n as nat, |k: int| (t, dest, k, section_file, content))
}

/// The jobs of section template `t` for the first `m` items of `sec`.
pub open spec fn section_jobs(sec: SectionInfo, t: Seq<char>, n: int, m: int) -> Seq<JobView>
    decreases m,
{
    if m <= 0 || m > sec.files@.len() {
        Seq::empty()
    } else {
        section_jobs(sec, t, n, m - 1) + match section_page(
            sec.name@,
            sec.folder@,
            sec.files@[m - 1]@,
        ) {
            Some(d) => fan_out(t, d, n, Some("../../"@ + sec.files@[m - 1]@), None),
            None => Seq::empty(),
        }
    }
}

/// The jobs of an ordinary template `t` written to `dest`: none when ignored;
/// a Markdown file goes through the content-wrapper template `md`, if any.
pub open spec fn page_jobs(
    t: Seq<char>,
    dest: Seq<char>,
    exclude: Seq<Seq<char>>,
    md: Option<Seq<char>>,
    n: int,
) -> Seq<JobView> {
    if any_matches(exclude, t) {
        Seq::empty()
    } else if ends_with(t, ".md"@) {
        match md {
            Some(m) => fan_out(m, with_html_ext(dest), n, None, Some(content_args(t))),
            None => Seq::empty(),
        }
    } else {
        fan_out(t, dest, n, None, None)
    }
}

/// The jobs of template `t`.
pub open spec fn template_jobs(
    t: Seq<char>,
    secs: Seq<SectionInfo>,
    exclude: Seq<Seq<char>>,
    md: Option<Seq<char>>,
    n: int,
) -> Seq<JobView> {
    match root_folder_of(t) {
        None => Seq::empty(),
        Some(root) => match find_section(secs, root, 0) {
            Some(si) => if ends_with(secs[si].template_file@, t) {
                section_jobs(secs[si], t, n, secs[si].files@.len() as int)
            } else if hidden_path(t) {
                Seq::empty()
            } else {
                page_jobs(t, replace_all(t, root + "/"@, secs[si].name@ + "/"@), exclude, md, n)
            },
            None => if hidden_path(t) {
                Seq::empty()
            } else {
                page_jobs(t, t, exclude, md, n)
            },
        },
    }
}

/// The jobs of the first `m` templates, in order.
pub open spec fn plan_jobs(
    ts: Seq<String>,
    secs: Seq<SectionInfo>,
    exclude: Seq<Seq<char>>,
    md: Option<Seq<char>>,
    n: int,
    m: int,
) -> Seq<JobView>
    decreases m,
{
    if m <= 0 || m > ts.len() {
        Seq::empty()
    } else {
        plan_jobs(ts, secs, exclude, md, n, m - 1) + template_jobs(ts[m - 1]@, secs, exclude, md, n)
    }
}

fn copy_opt(o: &Option<String>) -> (r: Option<String>)
    ensures
        opt_view(r) == opt_view(*o),
{
    match o {
        Some(s) => Some(s.clone()),
        None => None,
    }
}

fn copy_content(c: &Option<ContentFile>) -> (r: Option<ContentFile>)
    ensures
        content_view(r) == content_view(*c),
{
    match c {
        Some(c) => Some(
            ContentFile {
                file_name: c.file_name.clone(),
                file_path: c.file_path.clone(),
                file_id: c.file_id.clone(),
                file: c.file.clone(),
            },
        ),
        None => None,
    }
}

/// Append one job per locale target.
fn push_fan_out(
    jobs: &mut Vec<RenderJob>,
    template: &String,
    dest: &String,
    n: usize,
    section_file: &Option<String>,
    content: &Option<ContentFile>,
)
    ensures
        job_views(final(jobs)@) == job_views(old(jobs)@) + fan_out(
            template@,
            dest@,
            n as int,
            opt_view(*section_file),
            content_view(*content),
        ),
{
    let ghost start = job_views(jobs@);
    let ghost all = fan_out(template@, dest@, n as int, opt_view(*section_file), content_view(*content));
    let mut k: usize = 0;
    while k < n
        invariant
            k <= n,
            all == fan_out(template@, dest@, n as int, opt_view(*section_file), content_view(*content)),
            job_views(jobs@) == start + all.subrange(0, k as int),
            start == job_views(old(jobs)@),
        decreases n - k,
    {
        let ghost before = jobs@;
        jobs.push(
            RenderJob {
                template: template.clone(),
                destination: dest.clone(),
                target: k,
                section_file: copy_opt(section_file),
                content: copy_content(content),
            },
        );
        assert(job_views(jobs@) =~= job_views(before).push(all[k as int]));
        assert(all.subrange(0, k + 1) =~= all.subrange(0, k as int).push(all[k as int]));
        k = k + 1;
    }
    assert(all.subrange(0, n as int) =~= all);
}

/// The page of item `file` of section `name` with source folder `folder`.
pub fn section_page_of(name: &str, folder: &str, file: &str) -> (r: Option<String>)
    ensures
        opt_view(r) == section_page(name@, folder@, file@),
{
    if !is_under(folder, file) {
        return None;
    }
    let mut d = String::from_str(name);
    d.append("/");
    let fl = folder.unicode_len();
    let len = file.unicode_len();
    d.append(file.substring_char(fl + 1, len));
    Some(with_html_extension(d.as_str()))
}

/// The content arguments of Markdown template `t`.
pub fn content_file(t: &str) -> (r: ContentFile)
    ensures
        content_view(Some(r)) == Some(content_args(t@)),
{
    proof {
        reveal_strlit("/");
        reveal_strlit(".md");
    }
    let name = file_name(t);
    let dashed = replace_all_exec(t, "/", "-");
    let id = replace_all_exec(dashed.as_str(), ".md", "");
    let stem = replace_all_exec(name.as_str(), ".md", "");
    ContentFile { file_name: name, file_path: t.to_string(), file_id: id, file: stem }
}

proof fn lemma_find_section_bounds(secs: Seq<SectionInfo>, root: Seq<char>, k: int)
    requires
        0 <= k,
    ensures
        find_section(secs, root, k) matches Some(i) ==> k <= i < secs.len(),
    decreases secs.len() - k,
{
    if k < secs.len() && root_folder_of(secs[k].template_file@) != Some(root) {
        lemma_find_section_bounds(secs, root, k + 1);
    }
}

fn find_section_exec(secs: &Vec<SectionInfo>, root: &String) -> (r: Option<usize>)
    ensures
        match r {
            Some(i) => find_section(secs@, root@, 0) == Some(i as int),
            None => find_section(secs@, root@, 0) is None,
        },
{
    let mut k: usize = 0;
    while k < secs.len()
        invariant
            k <= secs@.len(),
            find_section(secs@, root@, 0) == find_section(secs@, root@, k as int),
        decreases secs@.len() - k,
    {
        match root_folder(secs[k].template_file.as_str()) {
            Some(r) => {
                if r == *root {
                    return Some(k);
                }
            },
            None => {},
        }
        k = k + 1;
    }
    None
}

fn push_page_jobs(
    jobs: &mut Vec<RenderJob>,
    t: &String,
    dest: &String,
    exclude: &Filter,
    md: &Option<String>,
    n: usize,
)
    ensures
        job_views(final(jobs)@) == job_views(old(jobs)@) + page_jobs(
            t@,
            dest@,
            exclude.patterns(),
            opt_view(*md),
            n as int,
        ),
{
    if exclude.is_match(t.as_str()) {
        assert(job_views(jobs@) =~= job_views(jobs@) + Seq::<JobView>::empty());
        return;
    }
    if ends_with_exec(t.as_str(), ".md") {
        match md {
            Some(m) => {
                let d = with_html_extension(dest.as_str());
                let c = Some(content_file(t.as_str()));
                push_fan_out(jobs, m, &d, n, &None, &c);
            },
            None => {
                assert(job_views(jobs@) =~= job_views(jobs@) + Seq::<JobView>::empty());
            },
        }
    } else {
        push_fan_out(jobs, t, dest, n, &None, &None);
    }
}

fn push_section_jobs(jobs: &mut Vec<RenderJob>, sec: &SectionInfo, t: &String, n: usize)
    ensures
        job_views(final(jobs)@) == job_views(old(jobs)@) + section_jobs(
            *sec,
            t@,
            n as int,
            sec.files@.len() as int,
        ),
{
    let ghost start = job_views(jobs@);
    let mut i: usize = 0;
    while i < sec.files.len()
        invariant
            i <= sec.files@.len(),
            job_views(jobs@) == start + section_jobs(*sec, t@, n as int, i as int),
            start == job_views(old(jobs)@),
        decreases sec.files@.len() - i,
    {
        let f = &sec.files[i];
        let ghost before = job_views(jobs@);
        match section_page_of(sec.name.as_str(), sec.folder.as_str(), f.as_str()) {
            Some(d) => {
                let mut sf = String::from_str("../../");
                sf.append(f.as_str());
                push_fan_out(jobs, t, &d, n, &Some(sf), &None);
                assert(job_views(jobs@) =~= start + section_jobs(*sec, t@, n as int, i + 1));
            },
            None => {
                assert(job_views(jobs@) =~= start + section_jobs(*sec, t@, n as int, i + 1));
            },
        }
        i = i + 1;
    }
}

/// Append the jobs of template `t`.
fn push_template_jobs(
    jobs: &mut Vec<RenderJob>,
    t: &String,
    secs: &Vec<SectionInfo>,
    exclude: &Filter,
    md: &Option<String>,
    n: usize,
)
    ensures
        job_views(final(jobs)@) == job_views(old(jobs)@) + template_jobs(
            t@,
            secs@,
            exclude.patterns(),
            opt_view(*md),
            n as int,
        ),
{
    let root = match root_folder(t.as_str()) {
        Some(r) => r,
        None => {
            assert(job_views(jobs@) =~= job_views(jobs@) + Seq::<JobView>::empty());
            return;
        },
    };
    proof {
        lemma_find_section_bounds(secs@, root@, 0);
        reveal_strlit("/");
    }
    match find_section_exec(secs, &root) {
        Some(si) => {
            let sec = &secs[si];
            if ends_with_exec(sec.template_file.as_str(), t.as_str()) {
                push_section_jobs(jobs, sec, t, n);
            } else if is_hidden(t.as_str()) {
                assert(job_views(jobs@) =~= job_views(jobs@) + Seq::<JobView>::empty());
            } else {
                let mut from = root.clone();
                from.append("/");
                let mut to = sec.name.clone();
                to.append("/");
                let dest = replace_all_exec(t.as_str(), from.as_str(), to.as_str());
                push_page_jobs(jobs, t, &dest, exclude, md, n);
            }
        },
        None => {
            if is_hidden(t.as_str()) {
                assert(job_views(jobs@) =~= job_views(jobs@) + Seq::<JobView>::empty());
            } else {
                push_page_jobs(jobs, t, t, exclude, md, n);
            }
        },
    }
}

/// The jobs of one render pass over `templates`: a section's template fans
/// out over its items, every page over the locale targets.
pub fn plan_render(
    templates: &Vec<String>,
    sections: &Vec<SectionInfo>,
    exclude: &Filter,
    md_template: &Option<String>,
    targets: &Vec<LocaleTarget>,
) -> (r: Vec<RenderJob>)
    ensures
        job_views(r@) == plan_jobs(
            templates@,
            sections@,
            exclude.patterns(),
            opt_view(*md_template),
            targets@.len() as int,
            templates@.len() as int,
        ),
{
    let n = targets.len();
    let mut jobs: Vec<RenderJob> = Vec::new();
    let mut i: usize = 0;
    while i < templates.len()
        invariant
            i <= templates@.len(),
            n == targets@.len(),
            job_views(jobs@) == plan_jobs(
                templates@,
                sections@,
                exclude.patterns(),
                opt_view(*md_template),
                n as int,
                i as int,
            ),
        decreases templates@.len() - i,
    {
        push_template_jobs(&mut jobs, &templates[i], sections, exclude, md_template, n);
        i = i + 1;
    }
    jobs
}

/// Where a job's page lands, relative to the site folder.
pub open spec fn output_path(folder: Option<Seq<char>>, dest: Seq<char>) -> Seq<char> {
    match folder {
        Some(f) => f + "/"@ + dest,
        None => dest,
    }
}

/// The path of page `dest` under locale target `target`, relative to the site folder.
pub fn target_path(target: &LocaleTarget, dest: &str) -> (r: String)
    ensures
        r@ == output_path(opt_view(target.folder), dest@),
{
    match &target.folder {
        Some(f) => {
            let mut r = f.clone();
            r.append("/");
            r.append(dest);
            r
        },
        None => dest.to_string(),
    }
}

/// Locale fan-out: an ordinary page (outside any section, visible, not
/// ignored, not Markdown) is rendered once per locale target; with the
/// targets of a locale list, the k-th page lands at `{locale k}/{t}`.
pub proof fn lemma_locale_fan_out(
    t: Seq<char>,
    secs: Seq<SectionInfo>,
    exclude: Seq<Seq<char>>,
    md: Option<Seq<char>>,
    ls: Seq<String>,
    ts: Seq<LocaleTarget>,
)
    requires
        root_folder_of(t) matches Some(root) && find_section(secs, root, 0) is None,
        !hidden_path(t),
        !any_matches(exclude, t),
        !ends_with(t, ".md"@),
        targets_of_locales(ls, ts),
    ensures
        template_jobs(t, secs, exclude, md, ts.len() as int).len() == ls.len(),
        forall|k: int|
            0 <= k < ls.len() ==> {
                let j = #[trigger] template_jobs(t, secs, exclude, md, ts.len() as int)[k];
                &&& j == (t, t, k, None::<Seq<char>>, None::<Seq<Seq<char>>>)
                &&& output_path(opt_view(ts[j.2].folder), j.1) == ls[k]@ + "/"@ + t
                &&& ts[j.2].language.locale@ == ls[k]@
            },
{
}

proof fn lemma_section_jobs_shape(sec: SectionInfo, t: Seq<char>, n: int, m: int)
    requires
        0 <= n,
        0 <= m <= sec.files@.len(),
        forall|i: int|
            0 <= i < sec.files@.len() ==> under(sec.folder@, #[trigger] sec.files@[i]@),
    ensures
        section_jobs(sec, t, n, m).len() == m * n,
        forall|i: int, k: int|
            0 <= i < m && 0 <= k < n ==> #[trigger] section_jobs(sec, t, n, m)[i * n + k] == (
                t,
                section_page(sec.name@, sec.folder@, sec.files@[i]@)->Some_0,
                k,
                Some("../../"@ + sec.files@[i]@),
                None::<Seq<Seq<char>>>,
            ),
    decreases m,
{
    if m > 0 {
        lemma_section_jobs_shape(sec, t, n, m - 1);
        let prev = section_jobs(sec, t, n, m - 1);
        assert(under(sec.folder@, sec.files@[m - 1]@));
        assert((m - 1) * n + n == m * n) by (nonlinear_arith);
        assert(section_page(sec.name@, sec.folder@, sec.files@[m - 1]@) is Some);
        assert(section_jobs(sec, t, n, m).len() == prev.len() + n);
        assert forall|i: int, k: int| 0 <= i < m && 0 <= k < n implies #[trigger] section_jobs(
            sec,
            t,
            n,
            m,
        )[i * n + k] == (
            t,
            section_page(sec.name@, sec.folder@, sec.files@[i]@)->Some_0,
            k,
            Some("../../"@ + sec.files@[i]@),
            None::<Seq<Seq<char>>>,
        ) by {
            if i < m - 1 {
                assert(i * n + k < (m - 1) * n) by (nonlinear_arith)
                    requires
                        0 <= i < m - 1,
                        0 <= k < n,
                ;
                assert(section_jobs(sec, t, n, m)[i * n + k] == prev[i * n + k]);
            } else {
                assert(i * n == (m - 1) * n);
                assert(section_jobs(sec, t, n, m)[i * n + k] == fan_out(
                    t,
                    section_page(sec.name@, sec.folder@, sec.files@[m - 1]@)->Some_0,
                    n,
                    Some("../../"@ + sec.files@[m - 1]@),
                    None,
                )[k]);
            }
        }
    } else {
        assert(0 * n == 0);
    }
}

/// Section fan-out: a section's template renders each of its items once per
/// locale target, to the item's page under the section's name; with `m`
/// items and `n` targets that is `m * n` jobs, item-major.
pub proof fn lemma_section_fan_out(
    t: Seq<char>,
    secs: Seq<SectionInfo>,
    exclude: Seq<Seq<char>>,
    md: Option<Seq<char>>,
    n: int,
    si: int,
)
    requires
        0 <= n,
        root_folder_of(t) matches Some(root) && find_section(secs, root, 0) == Some(si),
        0 <= si < secs.len(),
        ends_with(secs[si].template_file@, t),
        forall|i: int|
            0 <= i < secs[si].files@.len() ==> under(secs[si].folder@, #[trigger] secs[si].files@[i]@),
    ensures
        template_jobs(t, secs, exclude, md, n).len() == secs[si].files@.len() * n,
        forall|i: int, k: int|
            0 <= i < secs[si].files@.len() && 0 <= k < n ==> #[trigger] template_jobs(
                t,
                secs,
                exclude,
                md,
                n,
            )[i * n + k] == (
                t,
                with_html_ext(
                    secs[si].name@ + "/"@ + secs[si].files@[i]@.subrange(
                        secs[si].folder@.len() as int + 1,
                        secs[si].files@[i]@.len() as int,
                    ),
                ),
                k,
                Some("../../"@ + secs[si].files@[i]@),
                None::<Seq<Seq<char>>>,
            ),
{
    lemma_section_jobs_shape(secs[si], t, n, secs[si].files@.len() as int);
}

#[verifier::external_type_specification]
#[verifier::external_body]
pub struct ExTera(tera::Tera);

#[verifier::external_type_specification]
#[verifier::external_body]
pub struct ExContext(tera::Context);

/// Relies on `tera::Tera::render`: the rendered text, or on failure the
/// messages of the error's chain of causes (`source()`), outermost first.
#[verifier::external_body]
fn tera_render(tera: &tera::Tera, template: &str, context: &tera::Context) -> (r: Result<
    String,
    Vec<String>,
>) {
    match tera.render(template, context) {
        Ok(s) => Ok(s),
        Err(err) => {
            let mut causes = Vec::new();
            let mut cause = err.source();
            while let Some(e) = cause {
                causes.push(e.to_string());
                cause = e.source();
            }
            Err(causes)
        },
    }
}

/// A value of a template context, as the library puts it there: a string, a
/// `{locale, name}` object, or a list of such objects.
pub enum ContextValue {
    Text(Seq<char>),
    Language(Seq<char>, Seq<char>),
    Languages(Seq<(Seq<char>, Seq<char>)>),
}

/// The entries of a template context whose values are strings, `{locale,
/// name}` objects or lists of them, by key.
pub uninterp spec fn context_entries(c: tera::Context) -> Map<Seq<char>, ContextValue>;

/// Relies on `tera::Context::insert` with a string value: the key now holds it.
#[verifier::external_body]
fn context_insert_str(context: &mut tera::Context, key: &str, value: &str)
    ensures
        context_entries(*final(context)) == context_entries(*old(context)).insert(
            key@,
            ContextValue::Text(value@),
        ),
{
    context.insert(key, value);
}

/// Relies on `tera::Context::insert` with a language object `{locale, name}`:
/// the key now holds it.
#[verifier::external_body]
fn context_insert_language(context: &mut tera::Context, key: &str, language: &Language)
    ensures
        context_entries(*final(context)) == context_entries(*old(context)).insert(
            key@,
            ContextValue::Language(language.locale@, language.name@),
        ),
{
    let mut object: HashMap<&str, &str> = HashMap::new();
    object.insert("locale", language.locale.as_str());
    object.insert("name", language.name.as_str());
    context.insert(key, &object);
}

/// Relies on `tera::Context::insert` with a list of language objects
/// `{locale, name}`: the key now holds it.
#[verifier::external_body]
fn context_insert_languages(context: &mut tera::Context, key: &str, languages: &Vec<Language>)
    ensures
        context_entries(*final(context)) == context_entries(*old(context)).insert(
            key@,
            ContextValue::Languages(language_pairs(languages@)),
        ),
{
    let mut list: Vec<HashMap<&str, &str>> = Vec::new();
    for l in languages.iter() {
        let mut object: HashMap<&str, &str> = HashMap::new();
        object.insert("locale", l.locale.as_str());
        object.insert("name", l.name.as_str());
        list.push(object);
    }
    context.insert(key, &list);
}

/// Relies on `tera::Tera::add_raw_template`: `Err` with the error's message
/// when the template does not parse.
#[verifier::external_body]
fn tera_add_raw_template(tera: &mut tera::Tera, name: &str, content: &str) -> (r: Result<
    (),
    String,
>) {
    tera.add_raw_template(name, content).map_err(|e| e.to_string())
}

/// The in-page report of a failed render: each cause in a `<code>` line.
pub open spec fn error_html(causes: Seq<String>) -> Seq<char>
    decreases causes.len(),
{
    if causes.len() == 0 {
        Seq::empty()
    } else {
        error_html(causes.drop_last()) + "<code>"@ + causes.last()@ + "</code>\n"@
    }
}

/// The causes of a failed render, one per line.
pub open spec fn error_lines(causes: Seq<String>) -> Seq<char>
    decreases causes.len(),
{
    if causes.len() == 0 {
        Seq::empty()
    } else {
        error_lines(causes.drop_last()) + causes.last()@ + "\n"@
    }
}

/// `r` is the page for render outcome `outcome` (see `page_content`).
pub open spec fn finished_page(
    outcome: Result<String, Vec<String>>,
    serving: bool,
    stubs: Seq<char>,
    r: Result<String, Error>,
) -> bool {
    match outcome {
        Ok(s) => r matches Ok(p) && p@ == s@ + (if serving {
            stubs
        } else {
            Seq::empty()
        }),
        Err(causes) => if serving {
            r matches Ok(p) && p@ == error_html(causes@) + stubs
        } else {
            r matches Err(Error::Template(m)) && m@ == error_lines(causes@)
        },
    }
}

/// The page for a render outcome. When serving, the live-reload stubs follow
/// the page, and a failure becomes an in-page report so the pass goes on; in
/// a one-shot build a failure is an error.
pub fn page_content(outcome: Result<String, Vec<String>>, serving: bool, stubs: &str) -> (r: Result<
    String,
    Error,
>)
    ensures
        finished_page(outcome, serving, stubs@, r),
{
    match outcome {
        Ok(s) => {
            let mut p = s;
            if serving {
                p.append(stubs);
            } else {
                assert(p@ =~= p@ + Seq::<char>::empty());
            }
            Ok(p)
        },
        Err(causes) => {
            let mut html = String::new();
            let mut lines = String::new();
            let mut i: usize = 0;
            while i < causes.len()
                invariant
                    i <= causes@.len(),
                    html@ == error_html(causes@.subrange(0, i as int)),
                    lines@ == error_lines(causes@.subrange(0, i as int)),
                decreases causes@.len() - i,
            {
                assert(causes@.subrange(0, i + 1).drop_last() =~= causes@.subrange(0, i as int));
                html.append("<code>");
                html.append(causes[i].as_str());
                html.append("</code>\n");
                lines.append(causes[i].as_str());
                lines.append("\n");
                i = i + 1;
            }
            assert(causes@.subrange(0, causes@.len() as int) =~= causes@);
            if serving {
                html.append(stubs);
                Ok(html)
            } else {
                Err(Error::Template(lines))
            }
        },
    }
}

/// The `(locale, name)` pairs of a list of languages.
pub open spec fn language_pairs(ls: Seq<Language>) -> Seq<(Seq<char>, Seq<char>)> {
    ls.map_values(|l: Language| (l.locale@, l.name@))
}

/// The `(locale, name)` pairs of the locale targets.
pub open spec fn target_pairs(ts: Seq<LocaleTarget>) -> Seq<(Seq<char>, Seq<char>)> {
    ts.map_values(|t: LocaleTarget| (t.language.locale@, t.language.name@))
}

/// The context entries after rendering for locale target `t`.
pub open spec fn target_entries(m: Map<Seq<char>, ContextValue>, t: LocaleTarget) -> Map<
    Seq<char>,
    ContextValue,
> {
    m.insert("url_prefix"@, ContextValue::Text(t.url_prefix@)).insert(
        "locale"@,
        ContextValue::Text(t.language.locale@),
    ).insert("selected_language"@, ContextValue::Language(t.language.locale@, t.language.name@))
}

/// The context entries a job adds: its section item, or its content arguments.
pub open spec fn job_entries(m: Map<Seq<char>, ContextValue>, j: RenderJob) -> Map<
    Seq<char>,
    ContextValue,
> {
    let m1 = match j.section_file {
        Some(f) => m.insert("section_file"@, ContextValue::Text(f@)),
        None => m,
    };
    match j.content {
        Some(c) => m1.insert("file_name"@, ContextValue::Text(c.file_name@)).insert(
            "file_path"@,
            ContextValue::Text(c.file_path@),
        ).insert("file_id"@, ContextValue::Text(c.file_id@)).insert(
            "file"@,
            ContextValue::Text(c.file@),
        ),
        None => m1,
    }
}

/// The languages of the locale targets.
pub fn languages_of(targets: &Vec<LocaleTarget>) -> (r: Vec<Language>)
    ensures
        r@.len() == targets@.len(),
        forall|k: int|
            0 <= k < r@.len() ==> (#[trigger] r@[k]).locale@ == targets@[k].language.locale@
                && r@[k].name@ == targets@[k].language.name@,
{
    let mut r: Vec<Language> = Vec::new();
    let mut i: usize = 0;
    while i < targets.len()
        invariant
            i <= targets@.len(),
            r@.len() == i,
            forall|k: int|
                0 <= k < i ==> (#[trigger] r@[k]).locale@ == targets@[k].language.locale@
                    && r@[k].name@ == targets@[k].language.name@,
        decreases targets@.len() - i,
    {
        r.push(
            Language {
                locale: targets[i].language.locale.clone(),
                name: targets[i].language.name.clone(),
            },
        );
        i = i + 1;
    }
    r
}

/// Put the list of configured languages into the template context: the
/// targets' languages when locales are configured, else an empty list.
pub fn insert_languages(context: &mut tera::Context, targets: &Vec<LocaleTarget>, configured: bool)
    ensures
        context_entries(*final(context)) == context_entries(*old(context)).insert(
            "languages"@,
            ContextValue::Languages(
                if configured {
                    target_pairs(targets@)
                } else {
                    Seq::empty()
                },
            ),
        ),
{
    if configured {
        let list = languages_of(targets);
        assert(language_pairs(list@) =~= target_pairs(targets@));
        context_insert_languages(context, "languages", &list);
    } else {
        let empty: Vec<Language> = Vec::new();
        assert(language_pairs(empty@) =~= Seq::<(Seq<char>, Seq<char>)>::empty());
        context_insert_languages(context, "languages", &empty);
    }
}

/// Render one job: the job's section item or content arguments, the target's
/// URL prefix, locale and language go into the context, then the template is
/// rendered and the page finished as `page_content` says.
pub fn render_job(
    tera: &tera::Tera,
    context: &mut tera::Context,
    job: &RenderJob,
    targets: &Vec<LocaleTarget>,
    serving: bool,
    stubs: &str,
) -> (r: Result<String, Error>)
    requires
        job.target < targets@.len(),
    ensures
        context_entries(*final(context)) == target_entries(
            job_entries(context_entries(*old(context)), *job),
            targets@[job.target as int],
        ),
        exists|o: Result<String, Vec<String>>| finished_page(o, serving, stubs@, r),
        serving ==> (r matches Ok(p) && ends_with(p@, stubs@)),
        r matches Err(e) ==> (!serving && e is Template),
{
    match &job.section_file {
        Some(f) => context_insert_str(context, "section_file", f.as_str()),
        None => {},
    }
    match &job.content {
        Some(c) => {
            context_insert_str(context, "file_name", c.file_name.as_str());
            context_insert_str(context, "file_path", c.file_path.as_str());
            context_insert_str(context, "file_id", c.file_id.as_str());
            context_insert_str(context, "file", c.file.as_str());
        },
        None => {},
    }
    render_for_target(tera, context, job.template.as_str(), &targets[job.target], serving, stubs)
}

/// Render `template` for one locale target.
pub fn render_for_target(
    tera: &tera::Tera,
    context: &mut tera::Context,
    template: &str,
    target: &LocaleTarget,
    serving: bool,
    stubs: &str,
) -> (r: Result<String, Error>)
    ensures
        context_entries(*final(context)) == target_entries(context_entries(*old(context)), *target),
        exists|o: Result<String, Vec<String>>| finished_page(o, serving, stubs@, r),
        serving ==> (r matches Ok(p) && ends_with(p@, stubs@)),
        r matches Err(e) ==> (!serving && e is Template),
{
    context_insert_str(context, "url_prefix", target.url_prefix.as_str());
    context_insert_str(context, "locale", target.language.locale.as_str());
    context_insert_language(context, "selected_language", &target.language);
    let outcome = tera_render(tera, template, context);
    let ghost o = outcome;
    let r = page_content(outcome, serving, stubs);
    proof {
        if serving && r is Ok {
            let p = r->Ok_0@;
            assert(p.subrange(p.len() - stubs@.len(), p.len() as int) =~= stubs@);
        }
    }
    r
}

/// The text of the page that sends the browser to `url_prefix` + `index.html`.
pub open spec fn redirect_text(url_prefix: Seq<char>) -> Seq<char> {
    "<!DOCTYPE html><html><head><script>window.location.href=\""@ + url_prefix
        + "index.html\";</script></head><body>Please wait. Redirecting...</body></html>"@
}

/// The text of the redirecting page for `url_prefix`.
pub fn redirect_page(url_prefix: &str) -> (r: String)
    ensures
        r@ == redirect_text(url_prefix@),
{
    let mut page = String::from_str("<!DOCTYPE html><html><head><script>window.location.href=\"");
    page.append(url_prefix);
    page.append("index.html\";</script></head><body>Please wait. Redirecting...</body></html>");
    page
}

/// The target the site root sends browsers to: English when configured,
/// else the first target.
pub fn default_target(targets: &Vec<LocaleTarget>) -> (r: Option<usize>)
    ensures
        targets@.len() == 0 <==> r is None,
        r matches Some(i) ==> i < targets@.len(),
        (exists|k: int| 0 <= k < targets@.len() && #[trigger] targets@[k].language.locale@ == "en"@)
            ==> (r matches Some(i) && targets@[i as int].language.locale@ == "en"@),
        !(exists|k: int| 0 <= k < targets@.len() && #[trigger] targets@[k].language.locale@ == "en"@)
            ==> (targets@.len() == 0 || r == Some(0usize)),
{
    let mut i: usize = 0;
    while i < targets.len()
        invariant
            i <= targets@.len(),
            forall|k: int| 0 <= k < i ==> #[trigger] targets@[k].language.locale@ != "en"@,
        decreases targets@.len() - i,
    {
        if text_eq(targets[i].language.locale.as_str(), "en") {
            return Some(i);
        }
        i = i + 1;
    }
    if targets.len() == 0 {
        None
    } else {
        Some(0)
    }
}

/// A page for the site root that sends the browser to the index of locale
/// target `target`, for hosting the output without the development server
/// (which routes `/` itself). The template handed to tera is
/// `redirect_text(target.url_prefix)`.
pub fn render_redirecting_index_page(
    tera: &mut tera::Tera,
    context: &mut tera::Context,
    target: &LocaleTarget,
    serving: bool,
    stubs: &str,
) -> (r: Result<String, Error>)
    ensures
        r matches Ok(_) ==> context_entries(*final(context)) == target_entries(
            context_entries(*old(context)),
            *target,
        ),
        r matches Ok(_) ==> exists|o: Result<String, Vec<String>>| finished_page(o, serving, stubs@, r),
        serving && r is Ok ==> (r matches Ok(p) && ends_with(p@, stubs@)),
        r matches Err(e) ==> e is Template,
{
    let page = redirect_page(target.url_prefix.as_str());
    match tera_add_raw_template(tera, "__INDEX__.html", page.as_str()) {
        Ok(()) => {},
        Err(m) => {
            return Err(Error::Template(m));
        },
    }
    render_for_target(tera, context, "__INDEX__.html", target, serving, stubs)
}

/// Which template an `include_file` call renders.
pub struct IncludeChoice {
    /// The template to render.
    pub template: String,
    /// The requested template was not loaded and the `default` one is used.
    pub fallback: bool,
    /// The chosen template is not loaded either: it must be read from the
    /// templates folder, if it is there.
    pub from_file: bool,
}

/// The template an `include_file` call renders: the requested one when it is
/// loaded, else the `default` one when given; either must be read from the
/// templates folder when it is not loaded.
pub fn include_choice(requested: &str, default: &Option<String>, loaded: &Vec<String>) -> (r:
    IncludeChoice)
    ensures
        !listed_text(loaded@, requested@) && default is Some ==> (r.fallback && r.template@
            == default->Some_0@),
        !(!listed_text(loaded@, requested@) && default is Some) ==> (!r.fallback && r.template@
            == requested@),
        r.from_file == !listed_text(loaded@, r.template@),
{
    let known = contains_text(loaded, requested);
    let (template, fallback) = match default {
        Some(d) if !known => (d.clone(), true),
        _ => (requested.to_string(), false),
    };
    let from_file = !contains_text(loaded, template.as_str());
    IncludeChoice { template, fallback, from_file }
}

} // verus!
