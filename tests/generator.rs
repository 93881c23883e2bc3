use asphinx::error::Error;
use asphinx::generator::{
    asset_items, generate_build_context, generate_paths, index_key, move_assets, plan_page, ParsedPage,
};
use asphinx::history::{ChangeKind, CommitRecord, FileChange, GitInfo};

#[test]
fn missing_source_is_not_found() {
    match generate_build_context("content/missing.adoc", false) {
        Err(Error::NotFound(p)) => assert_eq!(p, "content/missing.adoc"),
        Ok(_) => panic!("a missing source must not get a build context"),
    }
}

#[test]
fn not_found_message() {
    assert_eq!(Error::NotFound("content/x.adoc".to_string()).to_string(), "File not found: content/x.adoc");
}

#[test]
fn build_context_maps_content_to_public() {
    let ctx = generate_build_context("content/guide/intro.adoc", true).unwrap();
    assert_eq!(ctx.source_file, "content/guide/intro.adoc");
    assert_eq!(ctx.source_dir, "content/guide");
    assert_eq!(ctx.dest_dir, "public/guide");
    assert_eq!(ctx.dest_file, "public/guide/intro.html");
}

#[test]
fn breadcrumbs_of_nested_page() {
    assert_eq!(
        generate_paths("public/guide/net/socket.html"),
        vec![
            ("guide".to_string(), "/guide".to_string()),
            ("net".to_string(), "/guide/net".to_string()),
        ]
    );
    assert_eq!(generate_paths("public/index.html"), Vec::<(String, String)>::new());
}

#[test]
fn index_key_drops_public_prefix() {
    assert_eq!(index_key("public/guide/intro.html"), "guide/intro.html");
    assert_eq!(index_key("./public/a.html"), "a.html");
    assert_eq!(index_key("elsewhere/a.html"), "elsewhere/a.html");
}

#[test]
fn missing_asset_is_skipped() {
    assert!(move_assets("img/a.png", "content/guide", "public/guide", false).is_none());
}

#[test]
fn asset_copy_paths() {
    let c = move_assets("img/a b.png", "content/guide", "public/guide", true).unwrap();
    assert_eq!(c.from, "content/guide/img/a b.png");
    assert_eq!(c.to, "public/guide/img/a b.png");
    assert_eq!(c.to_dir, "public/guide/img");
}

#[test]
fn diagram_images_are_not_copied() {
    let imgs = vec!["diag-123.svg".to_string(), "assets/x.png".to_string(), "a/diag-1.png".to_string()];
    assert_eq!(asset_items(&imgs), vec!["assets/x.png", "a/diag-1.png"]);
}

#[test]
fn page_plan_collects_everything() {
    let ctx = generate_build_context("content/guide/intro.adoc", true).unwrap();
    let walk = vec![
        CommitRecord {
            time: 1431648000,
            changes: vec![FileChange { path: "content/guide/intro.adoc".to_string(), kind: ChangeKind::Modified }],
        },
        CommitRecord { time: 0, changes: vec![] },
    ];
    let git = GitInfo::new(walk).unwrap();
    let page = ParsedPage {
        title: "Intro".to_string(),
        text: "Intro text".to_string(),
        content: Some("<p>hi</p>".to_string()),
        toc: Some("<div id=\"toctitle\">Table of Contents</div><ul></ul>".to_string()),
        footnotes: None,
        images: vec!["diag-1.svg".to_string(), "pic.png".to_string()],
    };
    let plan = plan_page(&ctx, page, "My Site", Some(&git));
    assert_eq!(plan.document.site, "My Site");
    assert_eq!(plan.document.title, "Intro");
    assert_eq!(plan.document.content, Some("<p>hi</p>".to_string()));
    assert_eq!(plan.document.toc, Some("<ul></ul>".to_string()));
    assert_eq!(plan.document.footnotes, None);
    assert_eq!(plan.document.last_modify_date, Some("2015-05-15 00:00:00".to_string()));
    assert_eq!(plan.document.ancestors, vec![("guide".to_string(), "/guide".to_string())]);
    assert_eq!(plan.index_key, "guide/intro.html");
    assert_eq!(plan.entry.text, "Intro text");
    assert_eq!(plan.entry.title, "Intro");
    assert_eq!(plan.entry.last_modified, Some("2015-05-15 00:00:00".to_string()));
    assert_eq!(plan.assets, vec!["pic.png"]);
}

#[test]
fn page_plan_without_history() {
    let ctx = generate_build_context("content/a.adoc", true).unwrap();
    let page = ParsedPage {
        title: "A".to_string(),
        text: String::new(),
        content: None,
        toc: None,
        footnotes: Some("<hr>".to_string()),
        images: vec![],
    };
    let plan = plan_page(&ctx, page, "", None);
    assert_eq!(plan.document.last_modify_date, None);
    assert_eq!(plan.document.footnotes, Some("<hr>".to_string()));
    assert_eq!(plan.index_key, "a.html");
}

#[test]
fn missing_source_leaves_the_batch_alone() {
    let batch = [("content/a.adoc", true), ("content/gone.adoc", false), ("content/b.adoc", true)];
    let built: Vec<String> = batch
        .iter()
        .filter_map(|(p, is_file)| generate_build_context(p, *is_file).ok())
        .map(|c| c.dest_file)
        .collect();
    assert_eq!(built, vec!["public/a.html", "public/b.html"]);
}

#[test]
fn only_the_leading_content_directory_is_mapped() {
    let ctx = generate_build_context("content/content.adoc", true).unwrap();
    assert_eq!(ctx.dest_file, "public/content.html");
    assert_eq!(ctx.dest_dir, "public");
    let ctx = generate_build_context("content/a.adoc.adoc", true).unwrap();
    assert_eq!(ctx.dest_file, "public/a.adoc.html");
    let ctx = generate_build_context("content/my-content/x.adoc", true).unwrap();
    assert_eq!(ctx.dest_dir, "public/my-content");
    assert_eq!(ctx.dest_file, "public/my-content/x.html");
}

#[test]
fn only_the_leading_public_directory_is_stripped() {
    assert_eq!(generate_paths("public/public/x.html"), vec![("public".to_string(), "/public".to_string())]);
    assert_eq!(
        generate_paths("public/apublic/x.html"),
        vec![("apublic".to_string(), "/apublic".to_string())]
    );
}
