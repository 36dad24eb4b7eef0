use shdw::make_path_relative_to;
use shdw::path::LexPath;
use std::path::{Path, PathBuf};

fn relative(path: &str, to: &str) -> String {
    make_path_relative_to(path, to)
}

/// The text that the standard library gives the components of `text`.
fn std_normal_form(text: &str) -> String {
    let rebuilt: PathBuf = Path::new(text).components().collect();
    rebuilt.to_str().unwrap().to_string()
}

const SAMPLES: [&str; 24] = [
    "",
    "/",
    "//",
    "///a",
    ".",
    "./",
    "./.",
    "..",
    "../..",
    "a",
    "a/",
    "a/b",
    "a//b",
    "a/./b",
    "a/../b",
    "./a",
    "././a",
    "/.",
    "/..",
    "/a/b/c.txt",
    "/a/b/../c",
    "a/b/.",
    "...",
    "/home/u/.config/shdw/dir",
];

#[test]
fn relative_path_of_the_documented_example() {
    assert_eq!(relative("/home/u/proj/x.txt", "/home/u/other"), "../proj/x.txt");
}

#[test]
fn relative_path_to_itself_is_dot() {
    assert_eq!(relative("/home/u", "/home/u"), ".");
    assert_eq!(relative("/", "/"), ".");
    assert_eq!(relative("", ""), ".");
}

#[test]
fn relative_path_below_the_start() {
    assert_eq!(relative("/a/b/c", "/a"), "b/c");
    assert_eq!(relative("/a", "/"), "a");
}

#[test]
fn relative_path_above_the_start() {
    assert_eq!(relative("/a", "/a/b/c"), "../..");
    assert_eq!(relative("/", "/a/b"), "../..");
}

#[test]
fn relative_path_with_only_the_root_in_common() {
    assert_eq!(relative("/a/b", "/c/d/e"), "../../../a/b");
}

#[test]
fn relative_path_has_no_bound_on_steps_up() {
    let to = "/a/b/c/d/e/f/g/h/i/j/k/l/m/n/o/p";
    assert_eq!(
        relative("/z", to),
        "../../../../../../../../../../../../../../../../z"
    );
}

#[test]
fn relative_path_between_relative_paths() {
    assert_eq!(relative("a/b", "a/c"), "../b");
    assert_eq!(relative("x", "y/z"), "../../x");
}

#[test]
fn relative_path_ignores_repeated_and_trailing_separators() {
    assert_eq!(relative("/home//u/proj/x.txt", "/home/u/other/"), "../proj/x.txt");
}

#[test]
fn relative_path_of_a_shadow_file_from_its_link_directory() {
    assert_eq!(
        relative("/home/u/.config/shdw/dir/proj/x.txt", "/home/u/proj"),
        "../.config/shdw/dir/proj/x.txt"
    );
}

#[test]
fn parse_then_write_agrees_with_the_standard_library() {
    for text in SAMPLES {
        assert_eq!(LexPath::parse(text).to_string(), std_normal_form(text), "for {:?}", text);
    }
}

#[test]
fn component_count_agrees_with_the_standard_library() {
    for text in SAMPLES {
        assert_eq!(
            LexPath::parse(text).len(),
            Path::new(text).components().count(),
            "for {:?}",
            text
        );
    }
}

#[test]
fn is_absolute_agrees_with_the_standard_library() {
    for text in SAMPLES {
        assert_eq!(
            LexPath::parse(text).is_absolute(),
            Path::new(text).is_absolute(),
            "for {:?}",
            text
        );
    }
}

#[test]
fn parent_agrees_with_the_standard_library() {
    for text in SAMPLES {
        let ours = LexPath::parse(text).parent().map(|p| p.to_string());
        let theirs = Path::new(text).parent().map(|p| std_normal_form(p.to_str().unwrap()));
        assert_eq!(ours, theirs, "for {:?}", text);
    }
}

#[test]
fn join_agrees_with_the_standard_library() {
    for base in SAMPLES {
        for other in SAMPLES {
            let ours = LexPath::parse(base).join(&LexPath::parse(other)).to_string();
            let theirs = std_normal_form(Path::new(base).join(other).to_str().unwrap());
            assert_eq!(ours, theirs, "for {:?} and {:?}", base, other);
        }
    }
}

#[test]
fn strip_prefix_agrees_with_the_standard_library() {
    for text in SAMPLES {
        for base in SAMPLES {
            let ours = LexPath::parse(text).strip_prefix(&LexPath::parse(base)).map(|p| p.to_string());
            let theirs = Path::new(text)
                .strip_prefix(base)
                .ok()
                .map(|p| std_normal_form(p.to_str().unwrap()));
            assert_eq!(ours, theirs, "for {:?} and {:?}", text, base);
        }
    }
}

#[test]
fn same_agrees_with_the_standard_library() {
    for a in SAMPLES {
        for b in SAMPLES {
            assert_eq!(
                LexPath::parse(a).same(&LexPath::parse(b)),
                Path::new(a) == Path::new(b),
                "for {:?} and {:?}",
                a,
                b
            );
        }
    }
}

#[test]
fn shared_len_counts_leading_components() {
    let a = LexPath::parse("/home/u/proj/x.txt");
    assert_eq!(a.shared_len(&LexPath::parse("/home/u/other")), 3);
    assert_eq!(a.shared_len(&LexPath::parse("/srv")), 1);
    assert_eq!(a.shared_len(&LexPath::parse("home/u")), 0);
    assert_eq!(a.shared_len(&a.duplicate()), 5);
}

#[test]
fn resolve_carries_out_the_steps() {
    let at = LexPath::parse("/home/u/other");
    assert_eq!(at.resolve(&LexPath::parse("../proj/x.txt")).to_string(), "/home/u/proj/x.txt");
    assert_eq!(at.resolve(&LexPath::parse(".")).to_string(), "/home/u/other");
    assert_eq!(at.resolve(&LexPath::parse("../../../../..")).to_string(), "/");
    assert_eq!(at.resolve(&LexPath::parse("/etc")).to_string(), "/etc");
    assert_eq!(LexPath::parse("a").resolve(&LexPath::parse("../../b")).to_string(), "../b");
}

#[test]
fn relative_path_leads_back_to_the_path() {
    let places = ["/", "/a", "/a/b", "/a/b/c", "/a/x", "/home/u/proj", "/home/u/.config/shdw/dir"];
    for path in places {
        for to in places {
            let way = relative(path, to);
            let back = LexPath::parse(to).resolve(&LexPath::parse(&way));
            assert_eq!(back.to_string(), path, "from {:?} by {:?}", to, way);
        }
    }
}

#[test]
fn relative_path_leads_back_to_the_cleaned_path() {
    let way = relative("/a/b/../c", "/a/d");
    assert_eq!(way, "../b/../c");
    let back = LexPath::parse("/a/d").resolve(&LexPath::parse(&way));
    assert_eq!(back.to_string(), "/a/c");
}

#[test]
fn link_in_a_directory_leads_to_its_target() {
    let link = LexPath::parse("/home/u/proj/sub/x.txt");
    let dir = link.parent().unwrap();
    let target = LexPath::parse("/home/u/.config/shdw/dir/proj/sub/x.txt");
    let way = target.relative_to(&dir);
    assert_eq!(way.to_string(), "../../.config/shdw/dir/proj/sub/x.txt");
    assert!(dir.resolve(&way).same(&target));
}

#[test]
fn written_relative_path_reads_back_unchanged() {
    for (path, to) in [("/a/b", "/c/d/e"), ("/a", "/a"), ("/a/b/c", "/a"), ("/x", "/")] {
        let way = LexPath::parse(path).relative_to(&LexPath::parse(to));
        assert!(LexPath::parse(&way.to_string()).same(&way));
    }
}

#[test]
fn relative_path_from_a_start_with_steps_up_need_not_lead_back() {
    let way = relative("/a/y", "/a/../c");
    assert_eq!(way, "../../y");
    let back = LexPath::parse("/a/../c").resolve(&LexPath::parse(&way));
    assert_eq!(back.to_string(), "/a/../../y");
}

#[test]
fn written_text_reads_back_as_the_same_components() {
    for text in SAMPLES {
        let once = LexPath::parse(text);
        let twice = LexPath::parse(&once.to_string());
        assert!(once.same(&twice), "for {:?}", text);
    }
}
