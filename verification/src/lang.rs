//! Language classification by file extension.
//!
//! A fixed table maps lower-cased file extensions to languages; a file
//! whose extension is unknown, or which has no extension, is not
//! classified and does not appear in any tally.

use vstd::prelude::*;
use vstd::string::StrSliceExecFns;

verus! {

/// One of the fixed, closed set of languages the scanner recognises.
#[derive(Clone, Copy, Debug, Eq, Hash, PartialEq, Structural)]
pub enum Language {
    Ada,
    AppleScript,
    Assembly,
    C,
    Clojure,
    ClojureScript,
    Cobol,
    CoffeeScript,
    Cpp,
    CSharp,
    Css,
    Dart,
    Elixir,
    Elm,
    Erlang,
    Fortran,
    Go,
    Groovy,
    Handlebars,
    Haskell,
    Html,
    Java,
    JavaScript,
    Json,
    Julia,
    Kotlin,
    Less,
    Lua,
    Markdown,
    Mustache,
    ObjectiveC,
    OCaml,
    Pascal,
    Perl,
    Php,
    Prolog,
    ProtocolBuffer,
    Python,
    R,
    Racket,
    ReasonMl,
    Ruby,
    Rust,
    Sass,
    Scala,
    Shell,
    Sql,
    Stylus,
    Swift,
    Toml,
    TypeScript,
    Vue,
    WebAssembly,
    Xml,
    Yaml,
}

impl Language {
    /// The language's display name.
    pub open spec fn spec_name(self) -> Seq<char> {
        match self {
            Language::Ada => "Ada"@,
            Language::AppleScript => "AppleScript"@,
            Language::Assembly => "Assembly"@,
            Language::C => "C"@,
            Language::Clojure => "Clojure"@,
            Language::ClojureScript => "ClojureScript"@,
            Language::Cobol => "COBOL"@,
            Language::CoffeeScript => "CoffeScript"@,
            Language::Cpp => "C++"@,
            Language::CSharp => "C#"@,
            Language::Css => "CSS"@,
            Language::Dart => "Dart"@,
            Language::Elixir => "Elixir"@,
            Language::Elm => "Elm"@,
            Language::Erlang => "Erlang"@,
            Language::Fortran => "Fortran"@,
            Language::Go => "Go"@,
            Language::Groovy => "Groovy"@,
            Language::Handlebars => "Handlebars"@,
            Language::Haskell => "Haskell"@,
            Language::Html => "HTML"@,
            Language::Java => "Java"@,
            Language::JavaScript => "JavaScript"@,
            Language::Json => "JSON"@,
            Language::Julia => "Julia"@,
            Language::Kotlin => "Kotlin"@,
            Language::Less => "LESS"@,
            Language::Lua => "Lua"@,
            Language::Markdown => "Markdown"@,
            Language::Mustache => "Mustache"@,
            Language::ObjectiveC => "Objective-C"@,
            Language::OCaml => "OCaml"@,
            Language::Pascal => "Pascal"@,
            Language::Perl => "Perl"@,
            Language::Php => "PHP"@,
            Language::Prolog => "Prolog"@,
            Language::ProtocolBuffer => "ProtocolBuffer"@,
            Language::Python => "Python"@,
            Language::R => "R"@,
            Language::Racket => "Racket"@,
            Language::ReasonMl => "ReasonML"@,
            Language::Ruby => "Ruby"@,
            Language::Rust => "Rust"@,
            Language::Sass => "SASS"@,
            Language::Scala => "Scala"@,
            Language::Shell => "Shell"@,
            Language::Sql => "SQL"@,
            Language::Stylus => "Stylus"@,
            Language::Swift => "Swift"@,
            Language::Toml => "TOML"@,
            Language::TypeScript => "TypeScript"@,
            Language::Vue => "Vue"@,
            Language::WebAssembly => "WebAssembly"@,
            Language::Xml => "XML"@,
            Language::Yaml => "YAML"@,
        }
    }

    /// The language's display name.
    pub fn as_str(&self) -> (r: &str)
        ensures
            r@ == self.spec_name(),
    {
        match self {
            Language::Ada => "Ada",
            Language::AppleScript => "AppleScript",
            Language::Assembly => "Assembly",
            Language::C => "C",
            Language::Clojure => "Clojure",
            Language::ClojureScript => "ClojureScript",
            Language::Cobol => "COBOL",
            Language::CoffeeScript => "CoffeScript",
            Language::Cpp => "C++",
            Language::CSharp => "C#",
            Language::Css => "CSS",
            Language::Dart => "Dart",
            Language::Elixir => "Elixir",
            Language::Elm => "Elm",
            Language::Erlang => "Erlang",
            Language::Fortran => "Fortran",
            Language::Go => "Go",
            Language::Groovy => "Groovy",
            Language::Handlebars => "Handlebars",
            Language::Haskell => "Haskell",
            Language::Html => "HTML",
            Language::Java => "Java",
            Language::JavaScript => "JavaScript",
            Language::Json => "JSON",
            Language::Julia => "Julia",
            Language::Kotlin => "Kotlin",
            Language::Less => "LESS",
            Language::Lua => "Lua",
            Language::Markdown => "Markdown",
            Language::Mustache => "Mustache",
            Language::ObjectiveC => "Objective-C",
            Language::OCaml => "OCaml",
            Language::Pascal => "Pascal",
            Language::Perl => "Perl",
            Language::Php => "PHP",
            Language::Prolog => "Prolog",
            Language::ProtocolBuffer => "ProtocolBuffer",
            Language::Python => "Python",
            Language::R => "R",
            Language::Racket => "Racket",
            Language::ReasonMl => "ReasonML",
            Language::Ruby => "Ruby",
            Language::Rust => "Rust",
            Language::Sass => "SASS",
            Language::Scala => "Scala",
            Language::Shell => "Shell",
            Language::Sql => "SQL",
            Language::Stylus => "Stylus",
            Language::Swift => "Swift",
            Language::Toml => "TOML",
            Language::TypeScript => "TypeScript",
            Language::Vue => "Vue",
            Language::WebAssembly => "WebAssembly",
            Language::Xml => "XML",
            Language::Yaml => "YAML",
        }
    }
}

/// The language a lower-cased extension maps to, if any.
pub open spec fn spec_get_language(s: Seq<char>) -> Option<Language> {
    if s == "adb"@ {
        Some(Language::Ada)
    } else if s == "ads"@ {
        Some(Language::Ada)
    } else if s == "applescript"@ {
        Some(Language::AppleScript)
    } else if s == "asm"@ {
        Some(Language::Assembly)
    } else if s == "c"@ {
        Some(Language::C)
    } else if s == "cbl"@ {
        Some(Language::Cobol)
    } else if s == "clj"@ {
        Some(Language::Clojure)
    } else if s == "cljs"@ {
        Some(Language::ClojureScript)
    } else if s == "cob"@ {
        Some(Language::Cobol)
    } else if s == "coffee"@ {
        Some(Language::CoffeeScript)
    } else if s == "cpp"@ {
        Some(Language::Cpp)
    } else if s == "cpy"@ {
        Some(Language::Cobol)
    } else if s == "cs"@ {
        Some(Language::CSharp)
    } else if s == "css"@ {
        Some(Language::Css)
    } else if s == "dart"@ {
        Some(Language::Dart)
    } else if s == "elm"@ {
        Some(Language::Elm)
    } else if s == "erl"@ {
        Some(Language::Erlang)
    } else if s == "ex"@ {
        Some(Language::Elixir)
    } else if s == "exs"@ {
        Some(Language::Elixir)
    } else if s == "f"@ {
        Some(Language::Fortran)
    } else if s == "f90"@ {
        Some(Language::Fortran)
    } else if s == "for"@ {
        Some(Language::Fortran)
    } else if s == "go"@ {
        Some(Language::Go)
    } else if s == "groovy"@ {
        Some(Language::Groovy)
    } else if s == "gsh"@ {
        Some(Language::Groovy)
    } else if s == "gvy"@ {
        Some(Language::Groovy)
    } else if s == "gy"@ {
        Some(Language::Groovy)
    } else if s == "handlebars"@ {
        Some(Language::Handlebars)
    } else if s == "hbs"@ {
        Some(Language::Handlebars)
    } else if s == "hrl"@ {
        Some(Language::Erlang)
    } else if s == "hs"@ {
        Some(Language::Haskell)
    } else if s == "htm"@ {
        Some(Language::Html)
    } else if s == "html"@ {
        Some(Language::Html)
    } else if s == "inc"@ {
        Some(Language::Pascal)
    } else if s == "java"@ {
        Some(Language::Java)
    } else if s == "jl"@ {
        Some(Language::Julia)
    } else if s == "js"@ {
        Some(Language::JavaScript)
    } else if s == "json"@ {
        Some(Language::Json)
    } else if s == "jsx"@ {
        Some(Language::JavaScript)
    } else if s == "kt"@ {
        Some(Language::Kotlin)
    } else if s == "kts"@ {
        Some(Language::Kotlin)
    } else if s == "less"@ {
        Some(Language::Less)
    } else if s == "lua"@ {
        Some(Language::Lua)
    } else if s == "m"@ {
        Some(Language::ObjectiveC)
    } else if s == "md"@ {
        Some(Language::Markdown)
    } else if s == "ml"@ {
        Some(Language::OCaml)
    } else if s == "mli"@ {
        Some(Language::OCaml)
    } else if s == "mustache"@ {
        Some(Language::Mustache)
    } else if s == "p"@ {
        Some(Language::Prolog)
    } else if s == "pas"@ {
        Some(Language::Pascal)
    } else if s == "php"@ {
        Some(Language::Php)
    } else if s == "pl"@ {
        Some(Language::Perl)
    } else if s == "pm"@ {
        Some(Language::Perl)
    } else if s == "pp"@ {
        Some(Language::Pascal)
    } else if s == "pro"@ {
        Some(Language::Prolog)
    } else if s == "proto"@ {
        Some(Language::ProtocolBuffer)
    } else if s == "py"@ {
        Some(Language::Python)
    } else if s == "r"@ {
        Some(Language::R)
    } else if s == "rb"@ {
        Some(Language::Ruby)
    } else if s == "re"@ {
        Some(Language::ReasonMl)
    } else if s == "rkt"@ {
        Some(Language::Racket)
    } else if s == "rs"@ {
        Some(Language::Rust)
    } else if s == "s"@ {
        Some(Language::Assembly)
    } else if s == "sass"@ {
        Some(Language::Sass)
    } else if s == "scala"@ {
        Some(Language::Scala)
    } else if s == "scpt"@ {
        Some(Language::AppleScript)
    } else if s == "scptd"@ {
        Some(Language::AppleScript)
    } else if s == "scss"@ {
        Some(Language::Sass)
    } else if s == "sh"@ {
        Some(Language::Shell)
    } else if s == "sql"@ {
        Some(Language::Sql)
    } else if s == "styl"@ {
        Some(Language::Stylus)
    } else if s == "swift"@ {
        Some(Language::Swift)
    } else if s == "toml"@ {
        Some(Language::Toml)
    } else if s == "ts"@ {
        Some(Language::TypeScript)
    } else if s == "tsx"@ {
        Some(Language::TypeScript)
    } else if s == "vue"@ {
        Some(Language::Vue)
    } else if s == "wat"@ {
        Some(Language::WebAssembly)
    } else if s == "xml"@ {
        Some(Language::Xml)
    } else if s == "yaml"@ {
        Some(Language::Yaml)
    } else if s == "yml"@ {
        Some(Language::Yaml)
    } else {
        None
    }
}

/// Character-for-character equality of two string slices.
pub(crate) fn str_eq(a: &str, b: &str) -> (r: bool)
    ensures
        r == (a@ == b@),
{
    let alen = a.unicode_len();
    let blen = b.unicode_len();
    if alen != blen {
        return false;
    }
    let mut i: usize = 0;
    while i < alen
        invariant
            alen == a@.len(),
            alen == b@.len(),
            i <= alen,
            forall|k: int| 0 <= k < i ==> a@[k] == b@[k],
        decreases alen - i,
    {
        if a.get_char(i) != b.get_char(i) {
            return false;
        }
        i = i + 1;
    }
    proof {
        assert(a@ =~= b@);
    }
    true
}

/// Look an extension up in the fixed table. The comparison is exact:
/// the argument is expected to be lower-cased already.
pub fn get_language(s: &str) -> (r: Option<Language>)
    ensures
        r == spec_get_language(s@),
{
    if str_eq(s, "adb") {
        return Some(Language::Ada);
    }
    if str_eq(s, "ads") {
        return Some(Language::Ada);
    }
    if str_eq(s, "applescript") {
        return Some(Language::AppleScript);
    }
    if str_eq(s, "asm") {
        return Some(Language::Assembly);
    }
    if str_eq(s, "c") {
        return Some(Language::C);
    }
    if str_eq(s, "cbl") {
        return Some(Language::Cobol);
    }
    if str_eq(s, "clj") {
        return Some(Language::Clojure);
    }
    if str_eq(s, "cljs") {
        return Some(Language::ClojureScript);
    }
    if str_eq(s, "cob") {
        return Some(Language::Cobol);
    }
    if str_eq(s, "coffee") {
        return Some(Language::CoffeeScript);
    }
    if str_eq(s, "cpp") {
        return Some(Language::Cpp);
    }
    if str_eq(s, "cpy") {
        return Some(Language::Cobol);
    }
    if str_eq(s, "cs") {
        return Some(Language::CSharp);
    }
    if str_eq(s, "css") {
        return Some(Language::Css);
    }
    if str_eq(s, "dart") {
        return Some(Language::Dart);
    }
    if str_eq(s, "elm") {
        return Some(Language::Elm);
    }
    if str_eq(s, "erl") {
        return Some(Language::Erlang);
    }
    if str_eq(s, "ex") {
        return Some(Language::Elixir);
    }
    if str_eq(s, "exs") {
        return Some(Language::Elixir);
    }
    if str_eq(s, "f") {
        return Some(Language::Fortran);
    }
    if str_eq(s, "f90") {
        return Some(Language::Fortran);
    }
    if str_eq(s, "for") {
        return Some(Language::Fortran);
    }
    if str_eq(s, "go") {
        return Some(Language::Go);
    }
    if str_eq(s, "groovy") {
        return Some(Language::Groovy);
    }
    if str_eq(s, "gsh") {
        return Some(Language::Groovy);
    }
    if str_eq(s, "gvy") {
        return Some(Language::Groovy);
    }
    if str_eq(s, "gy") {
        return Some(Language::Groovy);
    }
    if str_eq(s, "handlebars") {
        return Some(Language::Handlebars);
    }
    if str_eq(s, "hbs") {
        return Some(Language::Handlebars);
    }
    if str_eq(s, "hrl") {
        return Some(Language::Erlang);
    }
    if str_eq(s, "hs") {
        return Some(Language::Haskell);
    }
    if str_eq(s, "htm") {
        return Some(Language::Html);
    }
    if str_eq(s, "html") {
        return Some(Language::Html);
    }
    if str_eq(s, "inc") {
        return Some(Language::Pascal);
    }
    if str_eq(s, "java") {
        return Some(Language::Java);
    }
    if str_eq(s, "jl") {
        return Some(Language::Julia);
    }
    if str_eq(s, "js") {
        return Some(Language::JavaScript);
    }
    if str_eq(s, "json") {
        return Some(Language::Json);
    }
    if str_eq(s, "jsx") {
        return Some(Language::JavaScript);
    }
    if str_eq(s, "kt") {
        return Some(Language::Kotlin);
    }
    if str_eq(s, "kts") {
        return Some(Language::Kotlin);
    }
    if str_eq(s, "less") {
        return Some(Language::Less);
    }
    if str_eq(s, "lua") {
        return Some(Language::Lua);
    }
    if str_eq(s, "m") {
        return Some(Language::ObjectiveC);
    }
    if str_eq(s, "md") {
        return Some(Language::Markdown);
    }
    if str_eq(s, "ml") {
        return Some(Language::OCaml);
    }
    if str_eq(s, "mli") {
        return Some(Language::OCaml);
    }
    if str_eq(s, "mustache") {
        return Some(Language::Mustache);
    }
    if str_eq(s, "p") {
        return Some(Language::Prolog);
    }
    if str_eq(s, "pas") {
        return Some(Language::Pascal);
    }
    if str_eq(s, "php") {
        return Some(Language::Php);
    }
    if str_eq(s, "pl") {
        return Some(Language::Perl);
    }
    if str_eq(s, "pm") {
        return Some(Language::Perl);
    }
    if str_eq(s, "pp") {
        return Some(Language::Pascal);
    }
    if str_eq(s, "pro") {
        return Some(Language::Prolog);
    }
    if str_eq(s, "proto") {
        return Some(Language::ProtocolBuffer);
    }
    if str_eq(s, "py") {
        return Some(Language::Python);
    }
    if str_eq(s, "r") {
        return Some(Language::R);
    }
    if str_eq(s, "rb") {
        return Some(Language::Ruby);
    }
    if str_eq(s, "re") {
        return Some(Language::ReasonMl);
    }
    if str_eq(s, "rkt") {
        return Some(Language::Racket);
    }
    if str_eq(s, "rs") {
        return Some(Language::Rust);
    }
    if str_eq(s, "s") {
        return Some(Language::Assembly);
    }
    if str_eq(s, "sass") {
        return Some(Language::Sass);
    }
    if str_eq(s, "scala") {
        return Some(Language::Scala);
    }
    if str_eq(s, "scpt") {
        return Some(Language::AppleScript);
    }
    if str_eq(s, "scptd") {
        return Some(Language::AppleScript);
    }
    if str_eq(s, "scss") {
        return Some(Language::Sass);
    }
    if str_eq(s, "sh") {
        return Some(Language::Shell);
    }
    if str_eq(s, "sql") {
        return Some(Language::Sql);
    }
    if str_eq(s, "styl") {
        return Some(Language::Stylus);
    }
    if str_eq(s, "swift") {
        return Some(Language::Swift);
    }
    if str_eq(s, "toml") {
        return Some(Language::Toml);
    }
    if str_eq(s, "ts") {
        return Some(Language::TypeScript);
    }
    if str_eq(s, "tsx") {
        return Some(Language::TypeScript);
    }
    if str_eq(s, "vue") {
        return Some(Language::Vue);
    }
    if str_eq(s, "wat") {
        return Some(Language::WebAssembly);
    }
    if str_eq(s, "xml") {
        return Some(Language::Xml);
    }
    if str_eq(s, "yaml") {
        return Some(Language::Yaml);
    }
    if str_eq(s, "yml") {
        return Some(Language::Yaml);
    }
    None
}

/// `c` mapped to its ASCII lower-case equivalent: `'A'..='Z'` move to
/// `'a'..='z'`, every other character is unchanged.
pub open spec fn lower_char(c: char) -> char {
    if 65 <= c as u32 && c as u32 <= 90 {
        ((c as u32) + 32) as char
    } else {
        c
    }
}

/// `s` with each character mapped to its ASCII lower-case equivalent.
pub open spec fn lower_seq(s: Seq<char>) -> Seq<char> {
    Seq::new(s.len(), |i: int| lower_char(s[i]))
}

/// Relies on `str::to_ascii_lowercase`: ASCII upper-case letters are
/// mapped to lower case and every other character is unchanged.
#[verifier::external_body]
fn to_ascii_lower(s: &str) -> (r: String)
    ensures
        r@ == lower_seq(s@),
{
    s.to_ascii_lowercase()
}

/// Classify an extension of any case: it is lower-cased, then looked up
/// in the fixed table.
pub fn classify_extension(ext: &str) -> (r: Option<Language>)
    ensures
        r == spec_get_language(lower_seq(ext@)),
{
    let lowered = to_ascii_lower(ext);
    get_language(lowered.as_str())
}

/// Classification is case-insensitive: lower-casing an extension does
/// not change the language it classifies as, so two extensions that
/// differ only in ASCII case classify alike.
pub proof fn lemma_classify_case_insensitive(s: Seq<char>)
    ensures
        spec_get_language(lower_seq(lower_seq(s))) == spec_get_language(lower_seq(s)),
{
    assert(lower_seq(lower_seq(s)) =~= lower_seq(s));
}

} // verus!
