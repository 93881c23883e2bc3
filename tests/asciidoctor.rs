use asphinx::asciidoctor::{Asciidoctor, AsciidoctorBuilder};

#[test]
fn builder_arguments() {
    let mut b = AsciidoctorBuilder::new("content/a.adoc".to_string(), "public".to_string());
    b.attr("icons=font".to_string()).plugin("asciidoctor-mathematical".to_string());
    assert_eq!(
        b.args(),
        vec!["content/a.adoc", "-D", "public", "-o", "-", "-a", "icons=font", "-r", "asciidoctor-mathematical"]
    );
}

#[test]
fn diagram_plugin_gets_output_directory() {
    let mut b = AsciidoctorBuilder::new("content/a.adoc".to_string(), "public/x".to_string());
    b.plugin("asciidoctor-diagram".to_string());
    assert_eq!(
        b.args(),
        vec!["content/a.adoc", "-D", "public/x", "-o", "-", "-a", "outdir=public/x", "-r", "asciidoctor-diagram"]
    );
}

#[test]
fn converter_toc_and_diagram() {
    let mut c = Asciidoctor::new("in.adoc".to_string(), "out".to_string());
    c.enable_toc().enable_diagram().attr("k=v".to_string());
    assert_eq!(
        c.args(),
        vec!["in.adoc", "-D", "out", "-o", "-", "-a", "toc=1", "-a", "outdir=out", "-a", "k=v", "-r", "asciidoctor-diagram"]
    );
}
