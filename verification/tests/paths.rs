use std::path::{Component, Path, PathBuf};

use syncz::path::{
    clean_path, expand_path, join_path, local_parent, map_to_remote, normalize_path,
    parent_of_remote,
};

/// All texts of at most `max` characters of the alphabet.
fn texts(alphabet: &[char], max: usize) -> Vec<String> {
    let mut all = vec![String::new()];
    let mut from = 0;
    for _ in 0..max {
        let to = all.len();
        for i in from..to {
            for c in alphabet {
                let mut longer = all[i].clone();
                longer.push(*c);
                all.push(longer);
            }
        }
        from = to;
    }
    all
}

fn std_clean(path: &str) -> String {
    let mut out = PathBuf::new();
    for component in Path::new(path).components() {
        match component {
            Component::ParentDir => {
                out.pop();
            }
            Component::CurDir => {}
            other => out.push(other.as_os_str()),
        }
    }
    out.to_str().unwrap().to_string()
}

fn std_remote(local: &str, home: &str) -> String {
    match Path::new(local).strip_prefix(home) {
        Ok(rest) => Path::new("~").join(rest).to_str().unwrap().to_string(),
        Err(_) => local.to_string(),
    }
}

#[test]
fn clean_path_agrees_with_std() {
    for s in texts(&['/', '.', 'a'], 8) {
        assert_eq!(clean_path(s.as_bytes()), std_clean(&s).as_bytes(), "{}", s);
    }
}

#[test]
fn parents_agree_with_std() {
    for s in texts(&['/', '.', 'a', '~'], 7) {
        let parent = Path::new(&s).parent().map(|p| p.to_str().unwrap());
        assert_eq!(parent_of_remote(&s), parent.unwrap_or(&s), "{}", s);
        assert_eq!(
            local_parent(s.as_bytes()),
            parent.map(|p| p.as_bytes().to_vec()),
            "{}",
            s
        );
    }
}

#[test]
fn remote_paths_agree_with_std() {
    for home in texts(&['/', '.', 'a'], 4) {
        for local in texts(&['/', '.', 'a'], 6) {
            assert_eq!(
                map_to_remote(local.as_bytes(), home.as_bytes()),
                std_remote(&local, &home),
                "{} {}",
                local,
                home
            );
        }
    }
}

#[test]
fn joined_paths_agree_with_std() {
    for base in texts(&['/', '.', 'a'], 4) {
        for p in texts(&['/', '.', 'a'], 4) {
            let joined = Path::new(&base).join(&p);
            assert_eq!(
                join_path(base.as_bytes(), p.as_bytes()),
                joined.to_str().unwrap().as_bytes()
            );
        }
    }
}

#[test]
fn clean_path_twice_is_once() {
    for s in texts(&['/', '.', 'a'], 7) {
        let once = clean_path(s.as_bytes());
        assert_eq!(clean_path(&once), once);
    }
}

#[test]
fn clean_path_examples() {
    assert_eq!(clean_path(b"/home/user/./a//b/../c/"), b"/home/user/a/c");
    assert_eq!(clean_path(b"/../.."), b"/");
    assert_eq!(clean_path(b"../x"), b"x");
    assert_eq!(clean_path(b""), b"");
    assert_eq!(clean_path(b"/a/\xff/.."), b"/a");
}

#[test]
fn tilde_is_expanded() {
    let home: &[u8] = b"/home/user";
    assert_eq!(expand_path("~/a/b", Some(home)).unwrap(), b"/home/user/a/b");
    assert_eq!(expand_path("~", Some(home)).unwrap(), b"/home/user/");
    assert_eq!(expand_path("~~//a", Some(home)).unwrap(), b"/home/user/a");
    assert_eq!(expand_path("~\u{e9}", Some(home)).unwrap(), "/home/user/\u{e9}".as_bytes());
    assert_eq!(expand_path("a/~", None).unwrap(), b"a/~");
    assert_eq!(expand_path("", None).unwrap(), b"");
    let error = expand_path("~/a", None).unwrap_err();
    assert_eq!(error.message(), "unable to resolve home dir");
}

#[test]
fn relative_paths_start_from_the_current_directory() {
    assert_eq!(normalize_path(b"a/../b", b"/work"), b"/work/b");
    assert_eq!(normalize_path(b".", b"/work"), b"/work");
    assert_eq!(normalize_path(b"/a/./b", b"/work"), b"/a/b");
}

#[test]
fn home_maps_to_tilde() {
    let home = b"/home/user";
    assert_eq!(map_to_remote(b"/home/user/projects/app", home), "~/projects/app");
    assert_eq!(map_to_remote(b"/home/user", home), "~/");
    assert_eq!(map_to_remote(b"/home/username/x", home), "/home/username/x");
    assert_eq!(map_to_remote(b"/etc/hosts", home), "/etc/hosts");
    assert_eq!(map_to_remote(b"/home/user/a\xffb", home), "~/a\u{fffd}b");
    assert_eq!(map_to_remote("/home/user/\u{e9}".as_bytes(), home), "~/\u{e9}");
}

#[test]
fn remote_parents() {
    assert_eq!(parent_of_remote("~/projects/app"), "~/projects");
    assert_eq!(parent_of_remote("~/app/"), "~");
    assert_eq!(parent_of_remote("/"), "/");
    assert_eq!(parent_of_remote("/a"), "/");
    assert_eq!(parent_of_remote("a"), "");
}

#[test]
fn going_up_ends() {
    for path in texts(&['/', '.', 'a'], 6) {
        let mut here = path.into_bytes();
        let mut steps = here.len();
        while let Some(above) = local_parent(&here) {
            assert!(above.len() < here.len());
            assert_eq!(above[..], here[..above.len()]);
            assert!(steps > 0);
            steps -= 1;
            here = above;
        }
    }
}

#[test]
fn expanding_undoes_mapping() {
    for home in ["/", "/a", "/a/", "/a//b", "/./a/."] {
        for rest in texts(&['/', '.', 'a', '~'], 5) {
            let local = format!("/{}", rest);
            let remote = map_to_remote(local.as_bytes(), home.as_bytes());
            let back = expand_path(&remote, Some(home.as_bytes())).unwrap();
            let back = String::from_utf8(back).unwrap();
            assert_eq!(Path::new(&back), Path::new(&local), "{} below {}", local, home);
        }
    }
    let local = "/home/ü/ñ//x/";
    let remote = map_to_remote(local.as_bytes(), "/home/ü".as_bytes());
    assert_eq!(remote, "~/ñ//x");
    let back = expand_path(&remote, Some("/home/ü".as_bytes())).unwrap();
    assert_eq!(back, "/home/ü/ñ//x".as_bytes());
}

#[test]
fn tilde_leads_below_home() {
    for raw in texts(&['~', '/', '.', 'a'], 5) {
        let home: &[u8] = b"/home/u";
        if raw.starts_with('~') {
            let path = String::from_utf8(expand_path(&raw, Some(home)).unwrap()).unwrap();
            assert!(Path::new(&path).starts_with("/home/u"), "{}", raw);
            assert!(expand_path(&raw, None).is_err());
        } else {
            assert_eq!(expand_path(&raw, Some(home)).unwrap(), raw.as_bytes());
            assert_eq!(expand_path(&raw, None).unwrap(), raw.as_bytes());
        }
    }
    assert_eq!(expand_path("~//etc", Some(b"/home/u")).unwrap(), b"/home/u/etc");
}
