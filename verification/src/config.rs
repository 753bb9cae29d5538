use vstd::prelude::*;
use crate::edit_buffer::config::Config;
use crate::edit_buffer::indent::IndentType;

verus! {

/// The settings of a language that the configuration files give.
#[derive(Debug, Clone, Copy, PartialEq, Eq, Structural)]
pub struct LangConfig {
    pub indent: Option<usize>,
}

/// One language's table of a configuration file.
pub struct LangToml {
    pub extensions: Option<Vec<String>>,
    pub filenames: Option<Vec<String>>,
    pub indent: Option<usize>,
}

/// A configuration file: the tables of its languages, by name, in the order
/// of their names.
pub struct FileToml {
    pub lang: Option<Vec<(String, LangToml)>>,
}

/// A list of entries keyed by strings, each key once.
pub struct Assoc<T> {
    pub entries: Vec<(String, T)>,
}

impl<T> Assoc<T> {
    pub open spec fn wf(&self) -> bool {
        forall|i: int, j: int|
            0 <= i < j < self.entries@.len() ==> (#[trigger] self.entries@[i]).0@ != (#[trigger] self.entries@[j]).0@
    }

    /// The entries as a map.
    pub open spec fn view(&self) -> Map<Seq<char>, T> {
        Map::new(
            |k: Seq<char>| exists|i: int| 0 <= i < self.entries@.len() && self.entries@[i].0@ == k,
            |k: Seq<char>| self.entries@[choose|i: int| 0 <= i < self.entries@.len() && self.entries@[i].0@ == k].1,
        )
    }

    pub fn new() -> (r: Self)
        ensures
            r.wf(),
            r@ == Map::<Seq<char>, T>::empty(),
    {
        let r = Assoc { entries: Vec::new() };
        assert(r@ =~= Map::<Seq<char>, T>::empty());
        r
    }

    /// Where the key `k` is.
    pub fn position(&self, k: &str) -> (r: Option<usize>)
        requires
            self.wf(),
        ensures
            r is Some == self@.contains_key(k@),
            r matches Some(i) ==> i < self.entries@.len() && self.entries@[i as int].0@ == k@ && self@[k@]
                == self.entries@[i as int].1,
    {
        let ks = k.to_owned();
        let mut i: usize = 0;
        while i < self.entries.len()
            invariant
                i <= self.entries@.len(),
                self.wf(),
                ks@ == k@,
                forall|j: int| 0 <= j < i ==> self.entries@[j].0@ != k@,
            decreases self.entries@.len() - i,
        {
            if self.entries[i].0 == ks {
                proof {
                    let c = choose|j: int| 0 <= j < self.entries@.len() && self.entries@[j].0@ == k@;
                    assert(self.entries@[i as int].0@ == k@);
                    if c != i {
                        if c < i {
                        } else {
                            assert(self.entries@[i as int].0@ != self.entries@[c].0@);
                            assert(false);
                        }
                    }
                }
                return Some(i);
            }
            i = i + 1;
        }
        None
    }

    /// Sets the entry of `k` to `v`.
    pub fn insert(&mut self, k: String, v: T)
        requires
            old(self).wf(),
        ensures
            final(self).wf(),
            final(self)@ == old(self)@.insert(k@, v),
    {
        let ghost k0 = k@;
        match self.position(k.as_str()) {
            Some(i) => {
                let ghost before = self.entries@;
                self.entries.set(i, (k, v));
                proof {
                    assert forall|a: int, b: int|
                        0 <= a < b < self.entries@.len() implies (#[trigger] self.entries@[a]).0@ != (
                        #[trigger] self.entries@[b]).0@ by {
                        if a != i && b != i {
                            assert(self.entries@[a] == before[a] && self.entries@[b] == before[b]);
                        } else if a == i {
                            assert(before[a].0@ == k0);
                            assert(self.entries@[b] == before[b]);
                        } else {
                            assert(before[b].0@ == k0);
                            assert(self.entries@[a] == before[a]);
                        }
                    }
                    assert forall|q: Seq<char>| #[trigger] self@.contains_key(q) == old(self)@.insert(k0, v).contains_key(q) by {
                        if old(self)@.contains_key(q) {
                            let j = choose|j: int| 0 <= j < before.len() && before[j].0@ == q;
                            assert(self.entries@[j].0@ == q);
                        }
                        if self@.contains_key(q) {
                            let j = choose|j: int| 0 <= j < self.entries@.len() && self.entries@[j].0@ == q;
                            if j != i {
                                assert(before[j] == self.entries@[j]);
                            }
                        }
                    }
                    assert forall|q: Seq<char>| #[trigger] self@.contains_key(q) implies self@[q] == old(self)@.insert(k0, v)[q] by {
                        let j = choose|j: int| 0 <= j < self.entries@.len() && self.entries@[j].0@ == q;
                        if j != i {
                            assert(before[j] == self.entries@[j]);
                            assert(q != k0);
                            let j0 = choose|j0: int| 0 <= j0 < before.len() && before[j0].0@ == q;
                            if j0 != j {
                                assert(before[j0].0@ != before[j].0@);
                            }
                        } else {
                            assert(q == k0);
                        }
                    }
                    assert(self@ =~= old(self)@.insert(k0, v));
                }
            },
            None => {
                let ghost before = self.entries@;
                self.entries.push((k, v));
                proof {
                    assert forall|a: int, b: int|
                        0 <= a < b < self.entries@.len() implies (#[trigger] self.entries@[a]).0@ != (
                        #[trigger] self.entries@[b]).0@ by {
                        if b == before.len() {
                            assert(self.entries@[a] == before[a]);
                        } else {
                            assert(self.entries@[a] == before[a] && self.entries@[b] == before[b]);
                        }
                    }
                    assert forall|q: Seq<char>| #[trigger] self@.contains_key(q) == old(self)@.insert(k0, v).contains_key(q) by {
                        if old(self)@.contains_key(q) {
                            let j = choose|j: int| 0 <= j < before.len() && before[j].0@ == q;
                            assert(self.entries@[j].0@ == q);
                        }
                        if q == k0 {
                            assert(self.entries@[before.len() as int].0@ == q);
                        }
                        if self@.contains_key(q) {
                            let j = choose|j: int| 0 <= j < self.entries@.len() && self.entries@[j].0@ == q;
                            if j < before.len() {
                                assert(before[j] == self.entries@[j]);
                            }
                        }
                    }
                    assert forall|q: Seq<char>| #[trigger] self@.contains_key(q) implies self@[q] == old(self)@.insert(k0, v)[q] by {
                        let j = choose|j: int| 0 <= j < self.entries@.len() && self.entries@[j].0@ == q;
                        if j < before.len() {
                            assert(before[j] == self.entries@[j]);
                            let j0 = choose|j0: int| 0 <= j0 < before.len() && before[j0].0@ == q;
                            if j0 != j {
                                assert(before[j0].0@ != before[j].0@);
                            }
                        }
                    }
                    assert(self@ =~= old(self)@.insert(k0, v));
                }
            },
        }
    }
}

/// The map `m` with each key of `ks` set to `v`, in turn.
pub open spec fn insert_all(m: Map<Seq<char>, Seq<char>>, ks: Seq<String>, v: Seq<char>) -> Map<Seq<char>, Seq<char>>
    decreases ks.len(),
{
    if ks.len() == 0 {
        m
    } else {
        insert_all(m, ks.drop_last(), v).insert(ks.last()@, v)
    }
}

/// The settings gathered from configuration files.
pub struct Builder {
    pub configs: Assoc<LangConfig>,
    pub filenames: Assoc<String>,
    pub extensions: Assoc<String>,
}

/// What a language's table does to the settings: its file names and
/// extensions name the language, and its indent, if given, is the
/// language's.
pub open spec fn lang_added(
    configs: Map<Seq<char>, LangConfig>,
    lang: Seq<char>,
    indent: Option<usize>,
) -> Map<Seq<char>, LangConfig> {
    let c0 = if configs.contains_key(lang) { configs[lang] } else { LangConfig { indent: None } };
    configs.insert(lang, LangConfig { indent: if indent is Some { indent } else { c0.indent } })
}

impl Builder {
    pub open spec fn wf(&self) -> bool {
        self.configs.wf() && self.filenames.wf() && self.extensions.wf()
    }

    pub open spec fn names_of(m: Map<Seq<char>, String>) -> Map<Seq<char>, Seq<char>> {
        Map::new(|k: Seq<char>| m.contains_key(k), |k: Seq<char>| m[k]@)
    }

    pub fn new() -> (r: Self)
        ensures
            r.wf(),
            r.configs@ == Map::<Seq<char>, LangConfig>::empty(),
            r.filenames@ == Map::<Seq<char>, String>::empty(),
            r.extensions@ == Map::<Seq<char>, String>::empty(),
    {
        Builder { configs: Assoc::new(), filenames: Assoc::new(), extensions: Assoc::new() }
    }

    fn insert_names(m: &mut Assoc<String>, ks: &Option<Vec<String>>, lang: &String)
        requires
            old(m).wf(),
        ensures
            final(m).wf(),
            Builder::names_of(final(m)@) == insert_all(
                Builder::names_of(old(m)@),
                match ks {
                    Some(v) => v@,
                    None => Seq::empty(),
                },
                lang@,
            ),
    {
        match ks {
            None => {},
            Some(v) => {
                let mut i: usize = 0;
                while i < v.len()
                    invariant
                        i <= v@.len(),
                        m.wf(),
                        Builder::names_of(m@) == insert_all(Builder::names_of(old(m)@), v@.take(i as int), lang@),
                    decreases v@.len() - i,
                {
                    let ghost before = m@;
                    m.insert(v[i].clone(), lang.clone());
                    i = i + 1;
                    proof {
                        assert(v@.take(i as int).drop_last() == v@.take(i - 1));
                        assert(Builder::names_of(m@) =~= Builder::names_of(before).insert(v@[i - 1]@, lang@));
                    }
                }
                assert(v@.take(v@.len() as int) == v@);
            },
        }
    }

    /// Takes in the table of the language `lang`.
    pub fn add_lang_config(&mut self, lang: String, config: LangToml)
        requires
            old(self).wf(),
        ensures
            final(self).wf(),
            Builder::names_of(final(self).filenames@) == insert_all(
                Builder::names_of(old(self).filenames@),
                match config.filenames {
                    Some(v) => v@,
                    None => Seq::empty(),
                },
                lang@,
            ),
            Builder::names_of(final(self).extensions@) == insert_all(
                Builder::names_of(old(self).extensions@),
                match config.extensions {
                    Some(v) => v@,
                    None => Seq::empty(),
                },
                lang@,
            ),
            final(self).configs@ == lang_added(old(self).configs@, lang@, config.indent),
    {
        Builder::insert_names(&mut self.filenames, &config.filenames, &lang);
        Builder::insert_names(&mut self.extensions, &config.extensions, &lang);
        let c0 = match self.configs.position(lang.as_str()) {
            Some(i) => self.configs.entries[i].1,
            None => LangConfig { indent: None },
        };
        let c = match config.indent {
            Some(i) => LangConfig { indent: Some(i) },
            None => c0,
        };
        self.configs.insert(lang, c);
    }

    /// Takes in the tables of a configuration file, in order.
    pub fn add_config_file(&mut self, config: FileToml)
        requires
            old(self).wf(),
        ensures
            final(self).wf(),
            final(self).configs@ == configs_after(
                old(self).configs@,
                match config.lang {
                    Some(v) => v@,
                    None => Seq::empty(),
                },
            ),
            Builder::names_of(final(self).filenames@) == names_after(
                Builder::names_of(old(self).filenames@),
                match config.lang {
                    Some(v) => v@,
                    None => Seq::empty(),
                },
                true,
            ),
            Builder::names_of(final(self).extensions@) == names_after(
                Builder::names_of(old(self).extensions@),
                match config.lang {
                    Some(v) => v@,
                    None => Seq::empty(),
                },
                false,
            ),
    {
        match config.lang {
            None => {},
            Some(v) => {
                let ghost all = v@;
                let mut v = v;
                let mut k: usize = 0;
                let n = v.len();
                while v.len() > 0
                    invariant
                        self.wf(),
                        k + v@.len() == n,
                        n == all.len(),
                        v@ == all.skip(k as int),
                        self.configs@ == configs_after(old(self).configs@, all.take(k as int)),
                        Builder::names_of(self.filenames@) == names_after(Builder::names_of(old(self).filenames@), all.take(k as int), true),
                        Builder::names_of(self.extensions@) == names_after(Builder::names_of(old(self).extensions@), all.take(k as int), false),
                    decreases v@.len(),
                {
                    let (lang, lc) = v.remove(0);
                    assert(all[k as int] == (lang, lc));
                    self.add_lang_config(lang, lc);
                    k = k + 1;
                    proof {
                        assert(all.take(k as int).drop_last() == all.take(k - 1));
                        assert(all.take(k as int).last() == all[k - 1]);
                        assert(v@ =~= all.skip(k as int));
                    }
                }
                assert(all.take(n as int) == all);
            },
        }
    }
}

/// The settings after the tables `t`, in turn.
pub open spec fn configs_after(m: Map<Seq<char>, LangConfig>, t: Seq<(String, LangToml)>) -> Map<Seq<char>, LangConfig>
    decreases t.len(),
{
    if t.len() == 0 {
        m
    } else {
        lang_added(configs_after(m, t.drop_last()), t.last().0@, t.last().1.indent)
    }
}

/// The file names (or, with `files` false, the extensions) after the tables
/// `t`, in turn.
pub open spec fn names_after(m: Map<Seq<char>, Seq<char>>, t: Seq<(String, LangToml)>, files: bool) -> Map<Seq<char>, Seq<char>>
    decreases t.len(),
{
    if t.len() == 0 {
        m
    } else {
        let lt = t.last().1;
        let names = if files { lt.filenames } else { lt.extensions };
        insert_all(
            names_after(m, t.drop_last(), files),
            match names {
                Some(v) => v@,
                None => Seq::empty(),
            },
            t.last().0@,
        )
    }
}

/// The indentation of a language: its indent as spaces when positive, else
/// a tab.
pub open spec fn indent_of(c: Option<LangConfig>) -> IndentType {
    match c {
        Some(lc) => match lc.indent {
            Some(n) => if n > 0 { IndentType::Spaces(n) } else { IndentType::Tab },
            None => IndentType::Tab,
        },
        None => IndentType::Tab,
    }
}

/// The settings of every language, and how a file's language is told.
pub struct ConfigRepo {
    pub configs: Assoc<LangConfig>,
    pub snippets: Assoc<String>,
    pub extensions: Assoc<String>,
    pub filenames: Assoc<String>,
}

impl ConfigRepo {
    pub open spec fn wf(&self) -> bool {
        self.configs.wf() && self.snippets.wf() && self.extensions.wf() && self.filenames.wf()
    }

    /// The settings gathered by `builder`, with the snippet files by language.
    pub fn new(builder: Builder, snippets: Assoc<String>) -> (r: Self)
        requires
            builder.wf(),
            snippets.wf(),
        ensures
            r.wf(),
            r.configs == builder.configs,
            r.filenames == builder.filenames,
            r.extensions == builder.extensions,
            r.snippets == snippets,
    {
        ConfigRepo { configs: builder.configs, snippets, extensions: builder.extensions, filenames: builder.filenames }
    }

    /// The settings of the language `lang`: its indentation and its snippet
    /// file.
    pub fn get_config(&self, lang: &str) -> (r: Config)
        requires
            self.wf(),
        ensures
            r.indent_type == indent_of(if self.configs@.contains_key(lang@) { Some(self.configs@[lang@]) } else { None }),
            match r.snippet {
                Some(p) => self.snippets@.contains_key(lang@) && p@ == self.snippets@[lang@]@,
                None => !self.snippets@.contains_key(lang@),
            },
    {
        let indent_type = match self.configs.position(lang) {
            Some(i) => match self.configs.entries[i].1.indent {
                Some(n) => if n > 0 { IndentType::Spaces(n) } else { IndentType::Tab },
                None => IndentType::Tab,
            },
            None => IndentType::Tab,
        };
        let snippet = match self.snippets.position(lang) {
            Some(i) => Some(self.snippets.entries[i].1.clone()),
            None => None,
        };
        Config { indent_type, snippet }
    }

    /// The language of a file: by its name, else by its extension.
    pub fn infer_lang(&self, file_name: Option<&str>, ext: Option<&str>) -> (r: Option<String>)
        requires
            self.wf(),
        ensures
            r == (match file_name {
                Some(f) if self.filenames@.contains_key(f@) => Some(self.filenames@[f@]),
                _ => match ext {
                    Some(e) if self.extensions@.contains_key(e@) => Some(self.extensions@[e@]),
                    _ => None,
                },
            }),
    {
        match file_name {
            Some(f) => match self.filenames.position(f) {
                Some(i) => {
                    return Some(self.filenames.entries[i].1.clone());
                },
                None => {},
            },
            None => {},
        }
        match ext {
            Some(e) => match self.extensions.position(e) {
                Some(i) => Some(self.extensions.entries[i].1.clone()),
                None => None,
            },
            None => None,
        }
    }
}

} // verus!
