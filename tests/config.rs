use asphinx::config::{Asciidoc, Config};

#[test]
fn merge_prefers_patch_attributes_and_appends_extensions() {
    let mut base = Config::default_config();
    base.asciidoc.add_extension("asciidoctor-mathematical".to_string());
    base.asciidoc.set_attribute("icons".to_string(), "font".to_string());
    base.asciidoc.set_attribute("toc".to_string(), "left".to_string());

    let mut patch = Config::default_config();
    patch.asciidoc.add_extension("asciidoctor-diagram".to_string());
    patch.asciidoc.set_attribute("toc".to_string(), "right".to_string());
    patch.site = "Notes".to_string();

    base.merge(patch);
    assert_eq!(base.asciidoc.extensions(), &vec!["asciidoctor-mathematical".to_string(), "asciidoctor-diagram".to_string()]);
    assert_eq!(
        base.asciidoc.attributes(),
        &vec![("icons".to_string(), "font".to_string()), ("toc".to_string(), "right".to_string())]
    );
    assert_eq!(base.site, "Notes");
}

#[test]
fn merge_keeps_site_when_patch_has_default() {
    let mut base = Config::default_config();
    base.site = "Kept".to_string();
    base.merge(Config::default_config());
    assert_eq!(base.site, "Kept");
}

#[test]
fn converter_from_settings() {
    let mut a = Asciidoc::new();
    a.set_attribute("plantuml-format".to_string(), "svg".to_string());
    a.add_extension("asciidoctor-diagram".to_string());
    let b = a.converter("content/a.adoc".to_string(), "public".to_string());
    assert_eq!(
        b.args(),
        vec![
            "content/a.adoc", "-D", "public", "-o", "-", "-a", "plantuml-format=svg", "-a", "outdir=public", "-r",
            "asciidoctor-diagram"
        ]
    );
}
