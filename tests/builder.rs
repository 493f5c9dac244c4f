use wahoo::builder::{
    content_file, exclude_globs, locale_targets, page_content, plan_render, render_job,
    section_info, section_page_of, select_sources, target_path, RenderJob, SectionInfo,
    SectionSettings, SourceEntry,
};
use wahoo::error::Error;
use wahoo::filter::Filter;

fn strings(v: &[&str]) -> Vec<String> {
    v.iter().map(|s| s.to_string()).collect()
}

#[test]
fn default_locale_target() {
    let ts = locale_targets(&None).ok().unwrap();
    assert_eq!(ts.len(), 1);
    assert_eq!(ts[0].url_prefix, "/");
    assert_eq!(ts[0].folder, None);
    assert_eq!(ts[0].language.locale, "en");
    assert_eq!(ts[0].language.name, "English");
}

#[test]
fn configured_locale_targets() {
    let ts = locale_targets(&Some(strings(&["en", "fr"]))).ok().unwrap();
    assert_eq!(ts.len(), 2);
    assert_eq!(ts[1].url_prefix, "/fr/");
    assert_eq!(ts[1].folder, Some("fr".to_string()));
    assert_eq!(ts[0].language.name, "English");
    assert_eq!(ts[1].language.name, "Français");
}

#[test]
fn locale_configuration_errors() {
    match locale_targets(&Some(vec![])) {
        Err(Error::String(m)) => assert!(m.starts_with("Please provide any language")),
        _ => panic!("empty list accepted"),
    }
    match locale_targets(&Some(strings(&["en", "xx"]))) {
        Err(Error::String(m)) => assert_eq!(m, "Unknown language: xx"),
        _ => panic!("unknown locale accepted"),
    }
}

fn paths_of(jobs: &[RenderJob], ts: &[wahoo::builder::LocaleTarget]) -> Vec<String> {
    jobs.iter().map(|j| target_path(&ts[j.target], &j.destination)).collect()
}

#[test]
fn one_page_per_locale() {
    let ts = locale_targets(&Some(strings(&["en", "fr"]))).ok().unwrap();
    let exclude = Filter::new(&["__INDEX__.html"]).ok().unwrap();
    let jobs = plan_render(&strings(&["index.html"]), &vec![], &exclude, &None, &ts);
    assert_eq!(jobs.len(), 2);
    assert_eq!(paths_of(&jobs, &ts), strings(&["en/index.html", "fr/index.html"]));
    assert_eq!(ts[jobs[0].target].language.locale, "en");
    assert_eq!(ts[jobs[1].target].language.locale, "fr");
}

fn posts_section() -> SectionInfo {
    let settings = SectionSettings {
        title: Some("Posts".to_string()),
        folder: Some("posts/".to_string()),
        index: Some("blog/index.html".to_string()),
        template: Some("blog/post.html".to_string()),
        enumerate: Some(true),
    };
    let walked = strings(&["posts/a.md", "posts/b.md", "posts/.draft.md", "posts/c.md", "posts/x.png"]);
    section_info(&"journal".to_string(), &settings, &walked).unwrap()
}

#[test]
fn section_items() {
    let sec = posts_section();
    assert_eq!(sec.folder, "posts");
    assert_eq!(sec.files, strings(&["posts/a.md", "posts/b.md", "posts/c.md"]));
    assert_eq!(
        section_page_of("journal", "posts", "posts/2024/a.md"),
        Some("journal/2024/a.html".to_string())
    );
    assert_eq!(section_page_of("journal", "posts", "other/a.md"), None);
}

#[test]
fn section_without_enumeration_is_skipped() {
    let settings = SectionSettings {
        title: None,
        folder: Some("posts".to_string()),
        index: Some("index.html".to_string()),
        template: Some("post.html".to_string()),
        enumerate: Some(false),
    };
    assert!(section_info(&"s".to_string(), &settings, &vec![]).is_none());
}

#[test]
fn section_pages_per_item_and_locale() {
    let ts = locale_targets(&Some(strings(&["en", "fr"]))).ok().unwrap();
    let sections = vec![posts_section()];
    let exclude = Filter::new(&["blog/post.html"]).ok().unwrap();
    let jobs = plan_render(&strings(&["blog/post.html"]), &sections, &exclude, &None, &ts);
    assert_eq!(jobs.len(), 6);
    assert_eq!(
        paths_of(&jobs, &ts),
        strings(&[
            "en/journal/a.html",
            "fr/journal/a.html",
            "en/journal/b.html",
            "fr/journal/b.html",
            "en/journal/c.html",
            "fr/journal/c.html",
        ])
    );
    assert_eq!(jobs[0].section_file, Some("../../posts/a.md".to_string()));
    assert!(jobs.iter().all(|j| j.template == "blog/post.html"));
}

#[test]
fn section_folder_pages_are_renamed() {
    let ts = locale_targets(&None).ok().unwrap();
    let sections = vec![posts_section()];
    let exclude = Filter::new(&[]).ok().unwrap();
    let jobs = plan_render(
        &strings(&["blog/index.html", "blog/.hidden.html", "blog/.drafts/x.html"]),
        &sections,
        &exclude,
        &None,
        &ts,
    );
    assert_eq!(jobs.len(), 1);
    assert_eq!(jobs[0].destination, "journal/index.html");
}

#[test]
fn markdown_goes_through_the_wrapper_template() {
    let ts = locale_targets(&None).ok().unwrap();
    let exclude = Filter::new(&[]).ok().unwrap();
    let with = plan_render(&strings(&["docs/intro.md"]), &vec![], &exclude, &Some(".md.html".to_string()), &ts);
    assert_eq!(with.len(), 1);
    assert_eq!(with[0].template, ".md.html");
    assert_eq!(with[0].destination, "docs/intro.html");
    let c = with[0].content.as_ref().unwrap();
    assert_eq!(c.file_name, "intro.md");
    assert_eq!(c.file_path, "docs/intro.md");
    assert_eq!(c.file_id, "docs-intro");
    assert_eq!(c.file, "intro");
    let without = plan_render(&strings(&["docs/intro.md"]), &vec![], &exclude, &None, &ts);
    assert!(without.is_empty());
    assert_eq!(content_file("a/b.md").file_id, "a-b");
}

#[test]
fn hidden_and_ignored_templates_are_skipped() {
    let ts = locale_targets(&None).ok().unwrap();
    let exclude = Filter::new(&["__INDEX__.html", "partials/**"]).ok().unwrap();
    let jobs = plan_render(
        &strings(&[".x/a.html", "partials/nav.html", "__INDEX__.html", "about.html"]),
        &vec![],
        &exclude,
        &None,
        &ts,
    );
    assert_eq!(jobs.len(), 1);
    assert_eq!(jobs[0].destination, "about.html");
    assert_eq!(target_path(&ts[0], "about.html"), "about.html");
}

#[test]
fn globs_and_filter_errors() {
    let f = Filter::new(&["*.html", "img/**"]).ok().unwrap();
    assert!(f.is_match("a.html"));
    assert!(f.is_match("img/x/y.png"));
    assert!(!f.is_match("a.md"));
    assert!(!Filter::empty().is_match("a.html"));
    match Filter::new(&["ok/*", "a[b"]) {
        Err(Error::Glob(p)) => assert_eq!(p, "a[b"),
        _ => panic!("invalid glob accepted"),
    }
}

#[test]
fn exclude_list() {
    let sections = vec![posts_section()];
    assert_eq!(
        exclude_globs(&Some(strings(&["drafts/**"])), &sections),
        strings(&["drafts/**", "__INDEX__.html", "blog/post.html"])
    );
    assert_eq!(exclude_globs(&None, &vec![]), strings(&["__INDEX__.html"]));
}

#[test]
fn migrated_sources() {
    let templates = Filter::new(&["templates/**/*{.html,.md,.js,.raw}"]).ok().unwrap();
    let exclude = Filter::new(&["secret.txt"]).ok().unwrap();
    let entries = vec![
        SourceEntry { relative: "".to_string(), is_file: false },
        SourceEntry { relative: "img".to_string(), is_file: false },
        SourceEntry { relative: "img/a.png".to_string(), is_file: true },
        SourceEntry { relative: ".git/HEAD".to_string(), is_file: true },
        SourceEntry { relative: "templates/index.html".to_string(), is_file: true },
        SourceEntry { relative: "secret.txt".to_string(), is_file: true },
        SourceEntry { relative: "style.css".to_string(), is_file: true },
    ];
    assert_eq!(select_sources(&entries, &templates, &exclude), strings(&["img/a.png", "style.css"]));
}

#[test]
fn finished_pages() {
    let ok = page_content(Ok("<p>".to_string()), true, "<script/>").ok().unwrap();
    assert_eq!(ok, "<p><script/>");
    let plain = page_content(Ok("<p>".to_string()), false, "<script/>").ok().unwrap();
    assert_eq!(plain, "<p>");
    let served = page_content(Err(strings(&["bad tag", "line 3"])), true, "<s/>").ok().unwrap();
    assert_eq!(served, "<code>bad tag</code>\n<code>line 3</code>\n<s/>");
    match page_content(Err(strings(&["bad tag"])), false, "") {
        Err(Error::Template(m)) => assert_eq!(m, "bad tag\n"),
        _ => panic!("build mode must fail"),
    }
}

#[test]
fn render_job_binds_locale() {
    let ts = locale_targets(&Some(strings(&["en", "fr"]))).ok().unwrap();
    let mut tera = tera::Tera::default();
    tera.add_raw_template("index.html", "{{ locale }}|{{ url_prefix | safe }}|{{ selected_language.name }}")
        .unwrap();
    let mut context = tera::Context::new();
    let exclude = Filter::empty();
    let jobs = plan_render(&strings(&["index.html"]), &vec![], &exclude, &None, &ts);
    let fr = render_job(&tera, &mut context, &jobs[1], &ts, false, "").ok().unwrap();
    assert_eq!(fr, "fr|/fr/|Français");
    let en = render_job(&tera, &mut context, &jobs[0], &ts, true, "<!--s-->").ok().unwrap();
    assert_eq!(en, "en|/en/|English<!--s-->");
}

#[test]
fn failed_render_in_build_mode_is_an_error() {
    let ts = locale_targets(&None).ok().unwrap();
    let mut tera = tera::Tera::default();
    tera.add_raw_template("bad.html", "{{ missing_variable }}").unwrap();
    let mut context = tera::Context::new();
    let job = RenderJob {
        template: "bad.html".to_string(),
        destination: "bad.html".to_string(),
        target: 0,
        section_file: None,
        content: None,
    };
    assert!(render_job(&tera, &mut context, &job, &ts, false, "").is_err());
    let served = render_job(&tera, &mut context, &job, &ts, true, "").ok().unwrap();
    assert!(served.starts_with("<code>"));
}

#[test]
fn redirecting_index_page() {
    let mut tera = tera::Tera::default();
    let mut context = tera::Context::new();
    let ts = locale_targets(&Some(strings(&["fr", "de"]))).ok().unwrap();
    let page = wahoo::builder::render_redirecting_index_page(&mut tera, &mut context, &ts[0], true, "<!--s-->")
        .ok()
        .unwrap();
    assert!(page.contains("window.location.href=\"/fr/index.html\""));
    assert!(page.ends_with("<!--s-->"));
}

#[test]
fn include_file_choice() {
    let loaded = strings(&["a.html", "b.html"]);
    let c = wahoo::builder::include_choice("a.html", &Some("b.html".to_string()), &loaded);
    assert!(c.template == "a.html" && !c.fallback && !c.from_file);
    let c = wahoo::builder::include_choice("x.html", &Some("b.html".to_string()), &loaded);
    assert!(c.template == "b.html" && c.fallback && !c.from_file);
    let c = wahoo::builder::include_choice("x.html", &None, &loaded);
    assert!(c.template == "x.html" && !c.fallback && c.from_file);
    let c = wahoo::builder::include_choice("x.html", &Some("y.html".to_string()), &loaded);
    assert!(c.template == "y.html" && c.fallback && c.from_file);
}

#[test]
fn redirect_text_and_default_target() {
    assert_eq!(
        wahoo::builder::redirect_page("/de/"),
        "<!DOCTYPE html><html><head><script>window.location.href=\"/de/index.html\";</script></head><body>Please wait. Redirecting...</body></html>"
    );
    let ts = locale_targets(&Some(strings(&["fr", "en"]))).ok().unwrap();
    assert_eq!(wahoo::builder::default_target(&ts), Some(1));
    let ts = locale_targets(&Some(strings(&["fr", "de"]))).ok().unwrap();
    assert_eq!(wahoo::builder::default_target(&ts), Some(0));
    assert_eq!(wahoo::builder::default_target(&vec![]), None);
}
