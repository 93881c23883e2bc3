//! The command line of the external document converter.
//!
//! A converter run is described by its input file, its output directory, a list of
//! `key=value` attributes and a list of extensions to load. The run itself is made by the
//! caller; this module decides its arguments.
use crate::text::{concat, views};
use vstd::prelude::*;

verus! {

/// The extension that draws diagrams, which needs to know where to write them.
pub const DIAGRAM_PLUGIN: &'static str = "asciidoctor-diagram";

/// `flag` before each of `xs`, in order.
pub open spec fn flagged(flag: Seq<char>, xs: Seq<Seq<char>>) -> Seq<Seq<char>>
    decreases xs.len(),
{
    if xs.len() == 0 {
        seq![]
    } else {
        flagged(flag, xs.drop_last()) + seq![flag, xs.last()]
    }
}

/// The converter's arguments: the input, `-D` and the output directory, `-o -` so that the
/// page goes to standard output, then `-a` before each attribute and `-r` before each
/// extension.
pub open spec fn command_args(input: Seq<char>, dest: Seq<char>, attrs: Seq<Seq<char>>, plugins: Seq<Seq<char>>) -> Seq<Seq<char>> {
    seq![input, "-D"@, dest, "-o"@, "-"@] + flagged("-a"@, attrs) + flagged("-r"@, plugins)
}

/// The attribute that sends generated diagrams to `dest`.
pub open spec fn outdir_attr(dest: Seq<char>) -> Seq<char> {
    "outdir="@ + dest
}

/// Appends `flag, x` for each `x` of `xs` to `out`.
fn push_flagged(out: &mut Vec<String>, flag: &str, xs: &Vec<String>)
    ensures
        views(final(out)@) == views(old(out)@) + flagged(flag@, views(xs@)),
{
    let ghost base = views(out@);
    let mut i: usize = 0;
    assert(views(xs@).subrange(0, 0) =~= Seq::<Seq<char>>::empty());
    assert(base + flagged(flag@, Seq::<Seq<char>>::empty()) =~= base);
    while i < xs.len()
        invariant
            i <= xs@.len(),
            views(out@) == base + flagged(flag@, views(xs@).subrange(0, i as int)),
        decreases xs@.len() - i,
    {
        let ghost before = views(out@);
        out.push(flag.to_owned());
        out.push(xs[i].clone());
        let ghost upto = views(xs@).subrange(0, i + 1);
        assert(upto.drop_last() =~= views(xs@).subrange(0, i as int));
        assert(upto.last() == xs@[i as int]@);
        assert(views(out@) =~= before + seq![flag@, xs@[i as int]@]);
        i = i + 1;
    }
    assert(views(xs@).subrange(0, xs@.len() as int) =~= views(xs@));
}

fn build_args(input: &String, dest: &String, attrs: &Vec<String>, plugins: &Vec<String>) -> (r: Vec<String>)
    ensures
        views(r@) == command_args(input@, dest@, views(attrs@), views(plugins@)),
{
    let mut out: Vec<String> = Vec::new();
    out.push(input.clone());
    out.push("-D".to_owned());
    out.push(dest.clone());
    out.push("-o".to_owned());
    out.push("-".to_owned());
    assert(views(out@) =~= seq![input@, "-D"@, dest@, "-o"@, "-"@]);
    push_flagged(&mut out, "-a", attrs);
    push_flagged(&mut out, "-r", plugins);
    assert(views(out@) =~= command_args(input@, dest@, views(attrs@), views(plugins@)));
    out
}

/// A converter run, built up attribute by attribute.
pub struct Asciidoctor {
    input_file: String,
    destination_dir: String,
    attrs: Vec<String>,
    plugins: Vec<String>,
}

impl Asciidoctor {
    pub closed spec fn spec_input(&self) -> Seq<char> {
        self.input_file@
    }

    pub closed spec fn spec_dest(&self) -> Seq<char> {
        self.destination_dir@
    }

    pub closed spec fn spec_attrs(&self) -> Seq<Seq<char>> {
        views(self.attrs@)
    }

    pub closed spec fn spec_plugins(&self) -> Seq<Seq<char>> {
        views(self.plugins@)
    }

    /// A run on `input_file` that writes into `destination_dir`, with no attribute and no
    /// extension.
    pub fn new(input_file: String, destination_dir: String) -> (r: Asciidoctor)
        ensures
            r.spec_input() == input_file@,
            r.spec_dest() == destination_dir@,
            r.spec_attrs() == Seq::<Seq<char>>::empty(),
            r.spec_plugins() == Seq::<Seq<char>>::empty(),
    {
        let r = Asciidoctor { input_file, destination_dir, attrs: Vec::new(), plugins: Vec::new() };
        assert(r.spec_attrs() =~= Seq::<Seq<char>>::empty());
        assert(r.spec_plugins() =~= Seq::<Seq<char>>::empty());
        r
    }

    /// Adds one `key=value` attribute.
    pub fn attr(&mut self, attr: String) -> (r: &mut Asciidoctor)
        ensures
            r.spec_input() == old(self).spec_input(),
            r.spec_dest() == old(self).spec_dest(),
            r.spec_attrs() == old(self).spec_attrs().push(attr@),
            r.spec_plugins() == old(self).spec_plugins(),
            *final(self) == *final(r),
    {
        let ghost attr_view = attr@;
        self.attrs.push(attr);
        assert(self.spec_attrs() =~= old(self).spec_attrs().push(attr_view));
        self
    }

    /// Adds one extension to load.
    pub fn plugin(&mut self, plugin: String) -> (r: &mut Asciidoctor)
        ensures
            r.spec_input() == old(self).spec_input(),
            r.spec_dest() == old(self).spec_dest(),
            r.spec_attrs() == old(self).spec_attrs(),
            r.spec_plugins() == old(self).spec_plugins().push(plugin@),
            *final(self) == *final(r),
    {
        let ghost plugin_view = plugin@;
        self.plugins.push(plugin);
        assert(self.spec_plugins() =~= old(self).spec_plugins().push(plugin_view));
        self
    }

    /// Asks for a table of contents.
    pub fn enable_toc(&mut self) -> (r: &mut Asciidoctor)
        ensures
            r.spec_input() == old(self).spec_input(),
            r.spec_dest() == old(self).spec_dest(),
            r.spec_attrs() == old(self).spec_attrs().push("toc=1"@),
            r.spec_plugins() == old(self).spec_plugins(),
            *final(self) == *final(r),
    {
        self.attrs.push("toc=1".to_owned());
        assert(self.spec_attrs() =~= old(self).spec_attrs().push("toc=1"@));
        self
    }

    /// Loads the diagram extension and sends its drawings to the output directory.
    pub fn enable_diagram(&mut self) -> (r: &mut Asciidoctor)
        ensures
            r.spec_input() == old(self).spec_input(),
            r.spec_dest() == old(self).spec_dest(),
            r.spec_attrs() == old(self).spec_attrs().push(outdir_attr(old(self).spec_dest())),
            r.spec_plugins() == old(self).spec_plugins().push(DIAGRAM_PLUGIN@),
            *final(self) == *final(r),
    {
        let out = concat("outdir=", self.destination_dir.as_str());
        self.attrs.push(out);
        self.plugins.push(DIAGRAM_PLUGIN.to_owned());
        assert(self.spec_attrs() =~= old(self).spec_attrs().push(outdir_attr(old(self).spec_dest())));
        assert(self.spec_plugins() =~= old(self).spec_plugins().push(DIAGRAM_PLUGIN@));
        self
    }

    /// The converter's command-line arguments for this run.
    pub fn args(&self) -> (r: Vec<String>)
        ensures
            views(r@) == command_args(self.spec_input(), self.spec_dest(), self.spec_attrs(), self.spec_plugins()),
    {
        build_args(&self.input_file, &self.destination_dir, &self.attrs, &self.plugins)
    }
}

/// A converter run whose diagram extension is told its output directory as it is added.
pub struct AsciidoctorBuilder {
    input_file: String,
    destination_dir: String,
    attrs: Vec<String>,
    plugins: Vec<String>,
}

impl AsciidoctorBuilder {
    pub closed spec fn spec_input(&self) -> Seq<char> {
        self.input_file@
    }

    pub closed spec fn spec_dest(&self) -> Seq<char> {
        self.destination_dir@
    }

    pub closed spec fn spec_attrs(&self) -> Seq<Seq<char>> {
        views(self.attrs@)
    }

    pub closed spec fn spec_plugins(&self) -> Seq<Seq<char>> {
        views(self.plugins@)
    }

    /// A run on `input_file` that writes into `destination_dir`, with no attribute and no
    /// extension.
    pub fn new(input_file: String, destination_dir: String) -> (r: AsciidoctorBuilder)
        ensures
            r.spec_input() == input_file@,
            r.spec_dest() == destination_dir@,
            r.spec_attrs() == Seq::<Seq<char>>::empty(),
            r.spec_plugins() == Seq::<Seq<char>>::empty(),
    {
        let r = AsciidoctorBuilder { input_file, destination_dir, attrs: Vec::new(), plugins: Vec::new() };
        assert(r.spec_attrs() =~= Seq::<Seq<char>>::empty());
        assert(r.spec_plugins() =~= Seq::<Seq<char>>::empty());
        r
    }

    /// Adds one `key=value` attribute.
    pub fn attr(&mut self, attr: String) -> (r: &mut AsciidoctorBuilder)
        ensures
            r.spec_input() == old(self).spec_input(),
            r.spec_dest() == old(self).spec_dest(),
            r.spec_attrs() == old(self).spec_attrs().push(attr@),
            r.spec_plugins() == old(self).spec_plugins(),
            *final(self) == *final(r),
    {
        let ghost attr_view = attr@;
        self.attrs.push(attr);
        assert(self.spec_attrs() =~= old(self).spec_attrs().push(attr_view));
        self
    }

    /// Adds one extension to load; the diagram extension also gets the attribute that sends
    /// its drawings to the output directory.
    pub fn plugin(&mut self, plugin: String) -> (r: &mut AsciidoctorBuilder)
        ensures
            r.spec_input() == old(self).spec_input(),
            r.spec_dest() == old(self).spec_dest(),
            r.spec_attrs() == if plugin@ == DIAGRAM_PLUGIN@ {
                old(self).spec_attrs().push(outdir_attr(old(self).spec_dest()))
            } else {
                old(self).spec_attrs()
            },
            r.spec_plugins() == old(self).spec_plugins().push(plugin@),
            *final(self) == *final(r),
    {
        let diagram = DIAGRAM_PLUGIN.to_owned();
        if plugin == diagram {
            let out = concat("outdir=", self.destination_dir.as_str());
            self.attrs.push(out);
            assert(self.spec_attrs() =~= old(self).spec_attrs().push(outdir_attr(old(self).spec_dest())));
        }
        let ghost plugin_view = plugin@;
        self.plugins.push(plugin);
        assert(self.spec_plugins() =~= old(self).spec_plugins().push(plugin_view));
        self
    }

    /// The converter's command-line arguments for this run.
    pub fn args(&self) -> (r: Vec<String>)
        ensures
            views(r@) == command_args(self.spec_input(), self.spec_dest(), self.spec_attrs(), self.spec_plugins()),
    {
        build_args(&self.input_file, &self.destination_dir, &self.attrs, &self.plugins)
    }
}

} // verus!
