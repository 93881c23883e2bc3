//! Build settings: the converter's extensions and attributes, and the site name.
//!
//! Attribute values are kept as the text that goes after `key=` on the converter's command
//! line. Keys are distinct; setting a key that is already there replaces its value in place.
use crate::asciidoctor::{outdir_attr, AsciidoctorBuilder, DIAGRAM_PLUGIN};
use crate::text::{concat, views};
use vstd::prelude::*;

verus! {

/// Keys of `s` are pairwise distinct.
pub open spec fn distinct_keys(s: Seq<(String, String)>) -> bool {
    forall|i: int, j: int| 0 <= i < s.len() && 0 <= j < s.len() && i != j ==> #[trigger] s[i].0@ != #[trigger] s[j].0@
}

/// The attributes as a map; where a key comes twice the later value wins.
pub open spec fn attr_map(s: Seq<(String, String)>) -> Map<Seq<char>, Seq<char>>
    decreases s.len(),
{
    if s.len() == 0 {
        Map::empty()
    } else {
        attr_map(s.drop_last()).insert(s.last().0@, s.last().1@)
    }
}

proof fn lemma_attr_map(s: Seq<(String, String)>)
    requires
        distinct_keys(s),
    ensures
        forall|i: int| 0 <= i < s.len() ==> #[trigger] attr_map(s).contains_key(s[i].0@) && attr_map(s)[s[i].0@] == s[i].1@,
        forall|k: Seq<char>| #[trigger] attr_map(s).contains_key(k) ==> exists|i: int| 0 <= i < s.len() && s[i].0@ == k,
    decreases s.len(),
{
    if s.len() > 0 {
        let t = s.drop_last();
        assert(distinct_keys(t)) by {
            assert forall|i: int, j: int| 0 <= i < t.len() && 0 <= j < t.len() && i != j implies #[trigger] t[i].0@ != #[trigger] t[j].0@ by {
                assert(t[i] == s[i] && t[j] == s[j]);
            }
        }
        lemma_attr_map(t);
        assert forall|i: int| 0 <= i < s.len() implies #[trigger] attr_map(s).contains_key(s[i].0@) && attr_map(s)[s[i].0@] == s[i].1@ by {
            if i < s.len() - 1 {
                assert(t[i] == s[i]);
                assert(s[i].0@ != s[s.len() - 1].0@);
                assert(attr_map(t).contains_key(t[i].0@));
            }
        }
        assert forall|k: Seq<char>| #[trigger] attr_map(s).contains_key(k) implies exists|i: int| 0 <= i < s.len() && s[i].0@ == k by {
            if k != s.last().0@ {
                assert(attr_map(t).contains_key(k));
                let i = choose|i: int| 0 <= i < t.len() && t[i].0@ == k;
                assert(s[i] == t[i]);
            } else {
                assert(s[s.len() - 1].0@ == k);
            }
        }
    }
}

/// The converter settings.
pub struct Asciidoc {
    extensions: Vec<String>,
    attributes: Vec<(String, String)>,
}

impl Asciidoc {
    pub closed spec fn spec_extensions(&self) -> Seq<Seq<char>> {
        views(self.extensions@)
    }

    pub closed spec fn spec_attributes(&self) -> Map<Seq<char>, Seq<char>> {
        attr_map(self.attributes@)
    }

    pub closed spec fn spec_attr_list(&self) -> Seq<(Seq<char>, Seq<char>)> {
        self.attributes@.map_values(|p: (String, String)| (p.0@, p.1@))
    }

    pub closed spec fn wf(&self) -> bool {
        distinct_keys(self.attributes@)
    }

    /// No extension and no attribute.
    pub fn new() -> (r: Asciidoc)
        ensures
            r.wf(),
            r.spec_extensions() == Seq::<Seq<char>>::empty(),
            r.spec_attributes() == Map::<Seq<char>, Seq<char>>::empty(),
    {
        let r = Asciidoc { extensions: Vec::new(), attributes: Vec::new() };
        assert(r.spec_extensions() =~= Seq::<Seq<char>>::empty());
        r
    }

    /// Adds an extension to load.
    pub fn add_extension(&mut self, name: String)
        ensures
            final(self).spec_extensions() == old(self).spec_extensions().push(name@),
            final(self).spec_attributes() == old(self).spec_attributes(),
            final(self).wf() == old(self).wf(),
    {
        let ghost v = name@;
        self.extensions.push(name);
        assert(self.spec_extensions() =~= old(self).spec_extensions().push(v));
    }

    /// Sets `key` to `value`, in place where the key is there already.
    pub fn set_attribute(&mut self, key: String, value: String)
        requires
            old(self).wf(),
        ensures
            final(self).wf(),
            final(self).spec_attributes() == old(self).spec_attributes().insert(key@, value@),
            final(self).spec_extensions() == old(self).spec_extensions(),
    {
        let ghost s = self.attributes@;
        proof {
            lemma_attr_map(s);
        }
        let mut i: usize = 0;
        while i < self.attributes.len()
            invariant
                self.attributes@ == s,
                s == old(self).attributes@,
                self.extensions == old(self).extensions,
                distinct_keys(s),
                i <= s.len(),
                forall|j: int| 0 <= j < i ==> s[j].0@ != key@,
            decreases s.len() - i,
        {
            if self.attributes[i].0 == key {
                let ghost e = (key, value);
                self.attributes.set(i, (key, value));
                proof {
                    let n = self.attributes@;
                    lemma_attr_map(s);
                    assert(n == s.update(i as int, e));
                    assert(distinct_keys(n)) by {
                        assert forall|a: int, b: int| 0 <= a < n.len() && 0 <= b < n.len() && a != b implies #[trigger] n[a].0@ != #[trigger] n[b].0@ by {
                            assert(n[a].0@ == s[a].0@);
                            assert(n[b].0@ == s[b].0@);
                        }
                    }
                    lemma_attr_map(n);
                    assert(attr_map(n) =~= attr_map(s).insert(e.0@, e.1@)) by {
                        assert forall|k: Seq<char>| #[trigger] attr_map(n).contains_key(k) <==> attr_map(s).insert(e.0@, e.1@).contains_key(k) by {
                            if attr_map(n).contains_key(k) {
                                let j = choose|j: int| 0 <= j < n.len() && n[j].0@ == k;
                                assert(s[j].0@ == k);
                            }
                            if attr_map(s).contains_key(k) {
                                let j = choose|j: int| 0 <= j < s.len() && s[j].0@ == k;
                                assert(n[j].0@ == k);
                            }
                        }
                        assert forall|k: Seq<char>| #[trigger] attr_map(n).contains_key(k) implies attr_map(n)[k] == attr_map(s).insert(e.0@, e.1@)[k] by {
                            let j = choose|j: int| 0 <= j < n.len() && n[j].0@ == k;
                            if j != i {
                                assert(s[j] == n[j]);
                            }
                        }
                    }
                }
                return;
            }
            i = i + 1;
        }
        let ghost e = (key, value);
        self.attributes.push((key, value));
        proof {
            let n = self.attributes@;
            assert(n == s.push(e));
            assert(n.drop_last() =~= s);
            assert(distinct_keys(n)) by {
                assert forall|a: int, b: int| 0 <= a < n.len() && 0 <= b < n.len() && a != b implies #[trigger] n[a].0@ != #[trigger] n[b].0@ by {
                    if a < s.len() {
                        assert(n[a] == s[a]);
                    }
                    if b < s.len() {
                        assert(n[b] == s[b]);
                    }
                }
            }
        }
    }

    /// Adds the patch's extensions after the own ones and sets each of its attributes, the
    /// patch winning where both have a key.
    pub fn merge(&mut self, patch: Asciidoc)
        requires
            old(self).wf(),
        ensures
            final(self).wf(),
            final(self).spec_extensions() == old(self).spec_extensions() + patch.spec_extensions(),
            final(self).spec_attributes() == old(self).spec_attributes().union_prefer_right(patch.spec_attributes()),
    {
        let Asciidoc { extensions, attributes } = patch;
        let mut i: usize = 0;
        while i < extensions.len()
            invariant
                i <= extensions@.len(),
                self.wf(),
                self.spec_attributes() == old(self).spec_attributes(),
                self.spec_extensions() == old(self).spec_extensions() + views(extensions@).subrange(0, i as int),
            decreases extensions@.len() - i,
        {
            self.add_extension(extensions[i].clone());
            assert(views(extensions@).subrange(0, i + 1) =~= views(extensions@).subrange(0, i as int).push(extensions@[i as int]@));
            i = i + 1;
        }
        assert(views(extensions@).subrange(0, i as int) =~= patch.spec_extensions());
        let mut j: usize = 0;
        assert(attributes@.subrange(0, 0) =~= Seq::<(String, String)>::empty());
        assert(old(self).spec_attributes().union_prefer_right(Map::empty()) =~= old(self).spec_attributes());
        while j < attributes.len()
            invariant
                j <= attributes@.len(),
                self.wf(),
                self.spec_extensions() == old(self).spec_extensions() + patch.spec_extensions(),
                self.spec_attributes() == old(self).spec_attributes().union_prefer_right(attr_map(attributes@.subrange(0, j as int))),
            decreases attributes@.len() - j,
        {
            let k = attributes[j].0.clone();
            let v = attributes[j].1.clone();
            let ghost before = attr_map(attributes@.subrange(0, j as int));
            self.set_attribute(k, v);
            proof {
                let upto = attributes@.subrange(0, j + 1);
                assert(upto.drop_last() =~= attributes@.subrange(0, j as int));
                assert(upto.last() == attributes@[j as int]);
                assert(old(self).spec_attributes().union_prefer_right(before).insert(k@, v@) =~= old(self).spec_attributes().union_prefer_right(before.insert(k@, v@)));
            }
            j = j + 1;
        }
        assert(attributes@.subrange(0, j as int) =~= attributes@);
    }

    /// The extensions to load, in order.
    pub fn extensions(&self) -> (r: &Vec<String>)
        ensures
            views(r@) == self.spec_extensions(),
    {
        &self.extensions
    }

    /// The attributes, each key once.
    pub fn attributes(&self) -> (r: &Vec<(String, String)>)
        ensures
            attr_map(r@) == self.spec_attributes(),
            self.wf() ==> distinct_keys(r@),
    {
        &self.attributes
    }

    /// A converter run on `source_file` that writes into `dest_dir`, with each attribute as
    /// `key=value` and each extension of these settings.
    pub fn converter(&self, source_file: String, dest_dir: String) -> (r: AsciidoctorBuilder)
        ensures
            r.spec_input() == source_file@,
            r.spec_dest() == dest_dir@,
            r.spec_attrs() == attr_args(self.spec_attr_list()) + diagram_attrs(self.spec_extensions(), dest_dir@),
            r.spec_plugins() == self.spec_extensions(),
    {
        let ghost dest = dest_dir@;
        let ghost list = self.spec_attr_list();
        let mut out = AsciidoctorBuilder::new(source_file, dest_dir);
        let mut i: usize = 0;
        assert(attr_args(list.subrange(0, 0)) =~= Seq::<Seq<char>>::empty());
        while i < self.attributes.len()
            invariant
                i <= self.attributes@.len(),
                list == self.spec_attr_list(),
                out.spec_input() == source_file@,
                out.spec_dest() == dest,
                out.spec_attrs() == attr_args(list.subrange(0, i as int)),
                out.spec_plugins() == Seq::<Seq<char>>::empty(),
            decreases self.attributes@.len() - i,
        {
            let (key, value) = &self.attributes[i];
            let head = concat(key.as_str(), "=");
            let arg = concat(head.as_str(), value.as_str());
            out.attr(arg);
            assert(list[i as int] == (key@, value@));
            assert(attr_args(list.subrange(0, i + 1)) =~= attr_args(list.subrange(0, i as int)).push(arg@));
            i = i + 1;
        }
        assert(list.subrange(0, i as int) =~= list);
        let ghost base = out.spec_attrs();
        let ghost exts = self.spec_extensions();
        let mut j: usize = 0;
        assert(exts.subrange(0, 0) =~= Seq::<Seq<char>>::empty());
        assert(base + diagram_attrs(Seq::<Seq<char>>::empty(), dest) =~= base);
        while j < self.extensions.len()
            invariant
                j <= self.extensions@.len(),
                exts == self.spec_extensions(),
                out.spec_input() == source_file@,
                out.spec_dest() == dest,
                out.spec_attrs() == base + diagram_attrs(exts.subrange(0, j as int), dest),
                out.spec_plugins() == exts.subrange(0, j as int),
            decreases self.extensions@.len() - j,
        {
            let ext = self.extensions[j].clone();
            assert(ext@ == exts[j as int]);
            out.plugin(ext);
            let ghost upto = exts.subrange(0, j + 1);
            assert(upto.drop_last() =~= exts.subrange(0, j as int));
            assert(out.spec_attrs() =~= base + diagram_attrs(upto, dest));
            assert(out.spec_plugins() =~= upto);
            j = j + 1;
        }
        assert(exts.subrange(0, j as int) =~= exts);
        out
    }
}

/// The converter arguments for a list of attributes, each as `key=value`.
pub open spec fn attr_args(list: Seq<(Seq<char>, Seq<char>)>) -> Seq<Seq<char>> {
    list.map_values(|p: (Seq<char>, Seq<char>)| p.0 + "="@ + p.1)
}

/// The attributes that loading `exts` in order adds: one output directory for each diagram
/// extension.
pub open spec fn diagram_attrs(exts: Seq<Seq<char>>, dest: Seq<char>) -> Seq<Seq<char>>
    decreases exts.len(),
{
    if exts.len() == 0 {
        seq![]
    } else {
        diagram_attrs(exts.drop_last(), dest) + if exts.last() == DIAGRAM_PLUGIN@ {
            seq![outdir_attr(dest)]
        } else {
            Seq::<Seq<char>>::empty()
        }
    }
}

/// All settings of a build.
pub struct Config {
    pub no_default: bool,
    pub asciidoc: Asciidoc,
    pub site: String,
}

impl Default for Config {
    fn default() -> (r: Config)
        ensures
            !r.no_default,
            r.asciidoc.wf(),
            r.asciidoc.spec_extensions() == Seq::<Seq<char>>::empty(),
            r.asciidoc.spec_attributes() == Map::<Seq<char>, Seq<char>>::empty(),
            r.site@ == Seq::<char>::empty(),
    {
        Config::default_config()
    }
}

impl Config {
    /// The settings that hold where nothing else is said: no extension, no attribute, and no
    /// site name.
    pub fn default_config() -> (r: Config)
        ensures
            !r.no_default,
            r.asciidoc.wf(),
            r.asciidoc.spec_extensions() == Seq::<Seq<char>>::empty(),
            r.asciidoc.spec_attributes() == Map::<Seq<char>, Seq<char>>::empty(),
            r.site@ == Seq::<char>::empty(),
    {
        Config { no_default: false, asciidoc: Asciidoc::new(), site: String::new() }
    }

    /// Takes the patch's converter settings over these, and its site name where it gives
    /// one other than the default.
    pub fn merge(&mut self, patch: Config)
        requires
            old(self).asciidoc.wf(),
        ensures
            final(self).asciidoc.wf(),
            final(self).no_default == old(self).no_default,
            final(self).asciidoc.spec_extensions() == old(self).asciidoc.spec_extensions() + patch.asciidoc.spec_extensions(),
            final(self).asciidoc.spec_attributes() == old(self).asciidoc.spec_attributes().union_prefer_right(patch.asciidoc.spec_attributes()),
            final(self).site@ == if patch.site@ != Config::default_config_site() {
                patch.site@
            } else {
                old(self).site@
            },
    {
        let default = Config::default_config();
        let Config { no_default: _, asciidoc, site } = patch;
        self.asciidoc.merge(asciidoc);
        if !(site == default.site) {
            self.site = site;
        }
    }

    /// The default site name.
    pub open spec fn default_config_site() -> Seq<char> {
        Seq::empty()
    }
}

} // verus!
