//! Per-language analysis strategies.
use crate::assoc::AssocMap;
use crate::model::components::opt_str_view;
use crate::text_util::to_owned_string;
use vstd::prelude::*;

verus! {

/// How a language groups declarations into modules.
#[derive(Debug, Clone, Copy, PartialEq, Eq, Structural)]
pub struct ModuleConfig {
    pub file_based: bool,
    pub directory_based: bool,
    pub package_decl_based: bool,
    pub namespace_based: bool,
    pub inline_mod_based: bool,
}

/// The analysis strategy of one language.
#[derive(Debug)]
pub struct LanguageConfig {
    pub modules: ModuleConfig,
    pub transitive_imports: bool,
    pub support_impl_blocks: bool,
    pub forward_declarations: bool,
    pub self_keyword: Option<String>,
    pub self_type_keyword: Option<String>,
    pub implicit_first_param_as_self: bool,
    pub extract_dynamic_fields: bool,
    pub callable_types: bool,
}

pub struct LanguageConfigV {
    pub modules: ModuleConfig,
    pub transitive_imports: bool,
    pub support_impl_blocks: bool,
    pub forward_declarations: bool,
    pub self_keyword: Option<Seq<char>>,
    pub self_type_keyword: Option<Seq<char>>,
    pub implicit_first_param_as_self: bool,
    pub extract_dynamic_fields: bool,
    pub callable_types: bool,
}

impl View for LanguageConfig {
    type V = LanguageConfigV;

    open spec fn view(&self) -> LanguageConfigV {
        LanguageConfigV {
            modules: self.modules,
            transitive_imports: self.transitive_imports,
            support_impl_blocks: self.support_impl_blocks,
            forward_declarations: self.forward_declarations,
            self_keyword: opt_str_view(self.self_keyword),
            self_type_keyword: opt_str_view(self.self_type_keyword),
            implicit_first_param_as_self: self.implicit_first_param_as_self,
            extract_dynamic_fields: self.extract_dynamic_fields,
            callable_types: self.callable_types,
        }
    }
}

/// The configuration of the analyzer: a strategy per language and a default one.
pub struct AnalyzerConfig {
    pub default_config: LanguageConfig,
    pub languages: AssocMap<String, LanguageConfig>,
}

pub open spec fn module_config(
    file_based: bool,
    directory_based: bool,
    package_decl_based: bool,
    namespace_based: bool,
    inline_mod_based: bool,
) -> ModuleConfig {
    ModuleConfig { file_based, directory_based, package_decl_based, namespace_based, inline_mod_based }
}

/// The default strategy of Python: file and directory modules, transitive imports, the
/// first method parameter bound to the instance, dynamic fields, callable classes.
pub open spec fn python_strategy() -> LanguageConfigV {
    LanguageConfigV {
        modules: module_config(true, true, false, false, false),
        transitive_imports: true,
        support_impl_blocks: false,
        forward_declarations: false,
        self_keyword: None,
        self_type_keyword: None,
        implicit_first_param_as_self: true,
        extract_dynamic_fields: true,
        callable_types: true,
    }
}

/// The default strategy of Rust: file, directory and inline `mod` modules, impl blocks,
/// `self` and `Self`, callable tuple-struct constructors.
pub open spec fn rust_strategy() -> LanguageConfigV {
    LanguageConfigV {
        modules: module_config(true, true, false, false, true),
        transitive_imports: false,
        support_impl_blocks: true,
        forward_declarations: false,
        self_keyword: Some("self"@),
        self_type_keyword: Some("Self"@),
        implicit_first_param_as_self: false,
        extract_dynamic_fields: false,
        callable_types: true,
    }
}

/// The default strategy of Java: package-declaration modules, `this`.
pub open spec fn java_strategy() -> LanguageConfigV {
    LanguageConfigV {
        modules: module_config(false, false, true, false, false),
        transitive_imports: false,
        support_impl_blocks: false,
        forward_declarations: false,
        self_keyword: Some("this"@),
        self_type_keyword: None,
        implicit_first_param_as_self: false,
        extract_dynamic_fields: false,
        callable_types: false,
    }
}

/// The default strategy of C++: namespace modules, out-of-line methods, forward
/// declarations, `this`.
pub open spec fn cpp_strategy() -> LanguageConfigV {
    LanguageConfigV {
        modules: module_config(false, false, false, true, false),
        transitive_imports: false,
        support_impl_blocks: true,
        forward_declarations: true,
        self_keyword: Some("this"@),
        self_type_keyword: None,
        implicit_first_param_as_self: false,
        extract_dynamic_fields: false,
        callable_types: false,
    }
}

/// The default strategy of C: no modules, forward declarations.
pub open spec fn c_strategy() -> LanguageConfigV {
    LanguageConfigV {
        modules: module_config(false, false, false, false, false),
        transitive_imports: false,
        support_impl_blocks: false,
        forward_declarations: true,
        self_keyword: None,
        self_type_keyword: None,
        implicit_first_param_as_self: false,
        extract_dynamic_fields: false,
        callable_types: false,
    }
}

/// The strategy of a language without its own entry.
pub open spec fn fallback_strategy() -> LanguageConfigV {
    LanguageConfigV {
        modules: module_config(false, false, false, false, false),
        transitive_imports: false,
        support_impl_blocks: false,
        forward_declarations: false,
        self_keyword: Some("this"@),
        self_type_keyword: None,
        implicit_first_param_as_self: false,
        extract_dynamic_fields: false,
        callable_types: false,
    }
}

fn make_config(
    modules: ModuleConfig,
    transitive_imports: bool,
    support_impl_blocks: bool,
    forward_declarations: bool,
    self_keyword: Option<&str>,
    self_type_keyword: Option<&str>,
    implicit_first_param_as_self: bool,
    extract_dynamic_fields: bool,
    callable_types: bool,
) -> (r: LanguageConfig)
    ensures
        r@ == (LanguageConfigV {
            modules,
            transitive_imports,
            support_impl_blocks,
            forward_declarations,
            self_keyword: match self_keyword {
                Some(s) => Some(s@),
                None => None,
            },
            self_type_keyword: match self_type_keyword {
                Some(s) => Some(s@),
                None => None,
            },
            implicit_first_param_as_self,
            extract_dynamic_fields,
            callable_types,
        }),
{
    LanguageConfig {
        modules,
        transitive_imports,
        support_impl_blocks,
        forward_declarations,
        self_keyword: match self_keyword {
            Some(s) => Some(to_owned_string(s)),
            None => None,
        },
        self_type_keyword: match self_type_keyword {
            Some(s) => Some(to_owned_string(s)),
            None => None,
        },
        implicit_first_param_as_self,
        extract_dynamic_fields,
        callable_types,
    }
}

impl AnalyzerConfig {
    pub open spec fn wf(&self) -> bool {
        self.languages.wf()
    }

    /// The strategy in effect for a language name.
    pub open spec fn strategy_for(&self, lang: Seq<char>) -> LanguageConfig {
        if self.languages.map().dom().contains(lang) {
            self.languages.map()[lang]
        } else {
            self.default_config
        }
    }

    /// The default strategies: Python, Rust, Java, C++ and C each get their own, any other
    /// language the fallback.
    pub fn default_strategies() -> (r: AnalyzerConfig)
        ensures
            r.wf(),
            r.languages.map().dom() == set!["python"@, "rust"@, "java"@, "cpp"@, "c"@],
            r.languages.map()["python"@]@ == python_strategy(),
            r.languages.map()["rust"@]@ == rust_strategy(),
            r.languages.map()["java"@]@ == java_strategy(),
            r.languages.map()["cpp"@]@ == cpp_strategy(),
            r.languages.map()["c"@]@ == c_strategy(),
            r.default_config@ == fallback_strategy(),
    {
        proof {
            reveal_strlit("python");
            reveal_strlit("rust");
            reveal_strlit("java");
            reveal_strlit("cpp");
            reveal_strlit("c");
        }
        let mut languages: AssocMap<String, LanguageConfig> = AssocMap::new();
        let python = make_config(
            ModuleConfig {
                file_based: true,
                directory_based: true,
                package_decl_based: false,
                namespace_based: false,
                inline_mod_based: false,
            },
            true,
            false,
            false,
            None,
            None,
            true,
            true,
            true,
        );
        languages.insert(to_owned_string("python"), python);
        let rust = make_config(
            ModuleConfig {
                file_based: true,
                directory_based: true,
                package_decl_based: false,
                namespace_based: false,
                inline_mod_based: true,
            },
            false,
            true,
            false,
            Some("self"),
            Some("Self"),
            false,
            false,
            true,
        );
        languages.insert(to_owned_string("rust"), rust);
        let java = make_config(
            ModuleConfig {
                file_based: false,
                directory_based: false,
                package_decl_based: true,
                namespace_based: false,
                inline_mod_based: false,
            },
            false,
            false,
            false,
            Some("this"),
            None,
            false,
            false,
            false,
        );
        assert("python"@.len() != "java"@.len());
        assert("rust"@[0] != "java"@[0]);
        languages.insert(to_owned_string("java"), java);
        let cpp = make_config(
            ModuleConfig {
                file_based: false,
                directory_based: false,
                package_decl_based: false,
                namespace_based: true,
                inline_mod_based: false,
            },
            false,
            true,
            true,
            Some("this"),
            None,
            false,
            false,
            false,
        );
        assert("python"@.len() != "cpp"@.len());
        assert("rust"@[0] != "cpp"@[0]);
        languages.insert(to_owned_string("cpp"), cpp);
        let c = make_config(
            ModuleConfig {
                file_based: false,
                directory_based: false,
                package_decl_based: false,
                namespace_based: false,
                inline_mod_based: false,
            },
            false,
            false,
            true,
            None,
            None,
            false,
            false,
            false,
        );
        assert("python"@.len() != "c"@.len());
        assert("rust"@[0] != "c"@[0]);
        languages.insert(to_owned_string("c"), c);
        let default_config = make_config(
            ModuleConfig {
                file_based: false,
                directory_based: false,
                package_decl_based: false,
                namespace_based: false,
                inline_mod_based: false,
            },
            false,
            false,
            false,
            Some("this"),
            None,
            false,
            false,
            false,
        );
        proof {
            reveal_strlit("python");
            reveal_strlit("rust");
            reveal_strlit("java");
            reveal_strlit("cpp");
            reveal_strlit("c");
        }
        let r = AnalyzerConfig { default_config, languages };
        assert(r.languages.map().dom() =~= set!["python"@, "rust"@, "java"@, "cpp"@, "c"@]);
        r
    }

    /// The strategy of a language, or the default one when it has none of its own.
    pub fn get_for(&self, lang: &str) -> (r: &LanguageConfig)
        requires
            self.wf(),
        ensures
            *r == self.strategy_for(lang@),
    {
        let key = to_owned_string(lang);
        match self.languages.get(&key) {
            Some(c) => c,
            None => &self.default_config,
        }
    }
}

impl Default for AnalyzerConfig {
    /// The default strategies (`default_strategies`).
    fn default() -> (r: AnalyzerConfig)
        ensures
            r.wf(),
            r.languages.map().dom() == set!["python"@, "rust"@, "java"@, "cpp"@, "c"@],
            r.languages.map()["python"@]@ == python_strategy(),
            r.languages.map()["rust"@]@ == rust_strategy(),
            r.languages.map()["java"@]@ == java_strategy(),
            r.languages.map()["cpp"@]@ == cpp_strategy(),
            r.languages.map()["c"@]@ == c_strategy(),
            r.default_config@ == fallback_strategy(),
    {
        AnalyzerConfig::default_strategies()
    }
}

} // verus!
