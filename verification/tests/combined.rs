use wlinflate::Wordlist;

fn test_lines() -> Vec<String> {
    vec![
        "test\n".to_string(),
        "line2\n".to_string(),
        "{SWAP}stest\n".to_string(),
    ]
}

fn do_vecs_match<T: PartialEq>(a: &Vec<T>, b: &Vec<T>) -> bool {
    let matching = a.iter().zip(b.iter()).filter(|&(a, b)| a == b).count();
    matching == a.len() && matching == b.len()
}

#[test]
fn test_all() {
    let prepend = String::from("test1,test2,test3");
    let append = String::from("test1,test2,test3");
    let swap = String::from("dev,prod");
    let extensions = String::from(".txt,.bak,.file");

    let mut wl = Wordlist::new(
        test_lines(),
        Some(prepend),
        Some(append),
        Some(swap),
        Some(extensions),
    );

    let words = wl.collect_remaining();
    let answer = vec![
        "test".to_string(),
        "test1test".to_string(),
        "test2test".to_string(),
        "test3test".to_string(),
        "testtest1".to_string(),
        "testtest2".to_string(),
        "testtest3".to_string(),
        "test1testtest1".to_string(),
        "test1testtest2".to_string(),
        "test1testtest3".to_string(),
        "test2testtest1".to_string(),
        "test2testtest2".to_string(),
        "test2testtest3".to_string(),
        "test3testtest1".to_string(),
        "test3testtest2".to_string(),
        "test3testtest3".to_string(),
        "test.txt".to_string(),
        "test.bak".to_string(),
        "test.file".to_string(),
        "test1test.txt".to_string(),
        "test1test.bak".to_string(),
        "test1test.file".to_string(),
        "test2test.txt".to_string(),
        "test2test.bak".to_string(),
        "test2test.file".to_string(),
        "test3test.txt".to_string(),
        "test3test.bak".to_string(),
        "test3test.file".to_string(),
        "testtest1.txt".to_string(),
        "testtest1.bak".to_string(),
        "testtest1.file".to_string(),
        "testtest2.txt".to_string(),
        "testtest2.bak".to_string(),
        "testtest2.file".to_string(),
        "testtest3.txt".to_string(),
        "testtest3.bak".to_string(),
        "testtest3.file".to_string(),
        "test1testtest1.txt".to_string(),
        "test1testtest1.bak".to_string(),
        "test1testtest1.file".to_string(),
        "test1testtest2.txt".to_string(),
        "test1testtest2.bak".to_string(),
        "test1testtest2.file".to_string(),
        "test1testtest3.txt".to_string(),
        "test1testtest3.bak".to_string(),
        "test1testtest3.file".to_string(),
        "test2testtest1.txt".to_string(),
        "test2testtest1.bak".to_string(),
        "test2testtest1.file".to_string(),
        "test2testtest2.txt".to_string(),
        "test2testtest2.bak".to_string(),
        "test2testtest2.file".to_string(),
        "test2testtest3.txt".to_string(),
        "test2testtest3.bak".to_string(),
        "test2testtest3.file".to_string(),
        "test3testtest1.txt".to_string(),
        "test3testtest1.bak".to_string(),
        "test3testtest1.file".to_string(),
        "test3testtest2.txt".to_string(),
        "test3testtest2.bak".to_string(),
        "test3testtest2.file".to_string(),
        "test3testtest3.txt".to_string(),
        "test3testtest3.bak".to_string(),
        "test3testtest3.file".to_string(),
        "line2".to_string(),
        "test1line2".to_string(),
        "test2line2".to_string(),
        "test3line2".to_string(),
        "line2test1".to_string(),
        "line2test2".to_string(),
        "line2test3".to_string(),
        "test1line2test1".to_string(),
        "test1line2test2".to_string(),
        "test1line2test3".to_string(),
        "test2line2test1".to_string(),
        "test2line2test2".to_string(),
        "test2line2test3".to_string(),
        "test3line2test1".to_string(),
        "test3line2test2".to_string(),
        "test3line2test3".to_string(),
        "line2.txt".to_string(),
        "line2.bak".to_string(),
        "line2.file".to_string(),
        "test1line2.txt".to_string(),
        "test1line2.bak".to_string(),
        "test1line2.file".to_string(),
        "test2line2.txt".to_string(),
        "test2line2.bak".to_string(),
        "test2line2.file".to_string(),
        "test3line2.txt".to_string(),
        "test3line2.bak".to_string(),
        "test3line2.file".to_string(),
        "line2test1.txt".to_string(),
        "line2test1.bak".to_string(),
        "line2test1.file".to_string(),
        "line2test2.txt".to_string(),
        "line2test2.bak".to_string(),
        "line2test2.file".to_string(),
        "line2test3.txt".to_string(),
        "line2test3.bak".to_string(),
        "line2test3.file".to_string(),
        "test1line2test1.txt".to_string(),
        "test1line2test1.bak".to_string(),
        "test1line2test1.file".to_string(),
        "test1line2test2.txt".to_string(),
        "test1line2test2.bak".to_string(),
        "test1line2test2.file".to_string(),
        "test1line2test3.txt".to_string(),
        "test1line2test3.bak".to_string(),
        "test1line2test3.file".to_string(),
        "test2line2test1.txt".to_string(),
        "test2line2test1.bak".to_string(),
        "test2line2test1.file".to_string(),
        "test2line2test2.txt".to_string(),
        "test2line2test2.bak".to_string(),
        "test2line2test2.file".to_string(),
        "test2line2test3.txt".to_string(),
        "test2line2test3.bak".to_string(),
        "test2line2test3.file".to_string(),
        "test3line2test1.txt".to_string(),
        "test3line2test1.bak".to_string(),
        "test3line2test1.file".to_string(),
        "test3line2test2.txt".to_string(),
        "test3line2test2.bak".to_string(),
        "test3line2test2.file".to_string(),
        "test3line2test3.txt".to_string(),
        "test3line2test3.bak".to_string(),
        "test3line2test3.file".to_string(),
        "devstest".to_string(),
        "prodstest".to_string(),
        "test1devstest".to_string(),
        "test2devstest".to_string(),
        "test3devstest".to_string(),
        "test1prodstest".to_string(),
        "test2prodstest".to_string(),
        "test3prodstest".to_string(),
        "devstesttest1".to_string(),
        "devstesttest2".to_string(),
        "devstesttest3".to_string(),
        "prodstesttest1".to_string(),
        "prodstesttest2".to_string(),
        "prodstesttest3".to_string(),
        "test1devstesttest1".to_string(),
        "test1devstesttest2".to_string(),
        "test1devstesttest3".to_string(),
        "test2devstesttest1".to_string(),
        "test2devstesttest2".to_string(),
        "test2devstesttest3".to_string(),
        "test3devstesttest1".to_string(),
        "test3devstesttest2".to_string(),
        "test3devstesttest3".to_string(),
        "test1prodstesttest1".to_string(),
        "test1prodstesttest2".to_string(),
        "test1prodstesttest3".to_string(),
        "test2prodstesttest1".to_string(),
        "test2prodstesttest2".to_string(),
        "test2prodstesttest3".to_string(),
        "test3prodstesttest1".to_string(),
        "test3prodstesttest2".to_string(),
        "test3prodstesttest3".to_string(),
        "devstest.txt".to_string(),
        "devstest.bak".to_string(),
        "devstest.file".to_string(),
        "prodstest.txt".to_string(),
        "prodstest.bak".to_string(),
        "prodstest.file".to_string(),
        "test1devstest.txt".to_string(),
        "test1devstest.bak".to_string(),
        "test1devstest.file".to_string(),
        "test2devstest.txt".to_string(),
        "test2devstest.bak".to_string(),
        "test2devstest.file".to_string(),
        "test3devstest.txt".to_string(),
        "test3devstest.bak".to_string(),
        "test3devstest.file".to_string(),
        "test1prodstest.txt".to_string(),
        "test1prodstest.bak".to_string(),
        "test1prodstest.file".to_string(),
        "test2prodstest.txt".to_string(),
        "test2prodstest.bak".to_string(),
        "test2prodstest.file".to_string(),
        "test3prodstest.txt".to_string(),
        "test3prodstest.bak".to_string(),
        "test3prodstest.file".to_string(),
        "devstesttest1.txt".to_string(),
        "devstesttest1.bak".to_string(),
        "devstesttest1.file".to_string(),
        "devstesttest2.txt".to_string(),
        "devstesttest2.bak".to_string(),
        "devstesttest2.file".to_string(),
        "devstesttest3.txt".to_string(),
        "devstesttest3.bak".to_string(),
        "devstesttest3.file".to_string(),
        "prodstesttest1.txt".to_string(),
        "prodstesttest1.bak".to_string(),
        "prodstesttest1.file".to_string(),
        "prodstesttest2.txt".to_string(),
        "prodstesttest2.bak".to_string(),
        "prodstesttest2.file".to_string(),
        "prodstesttest3.txt".to_string(),
        "prodstesttest3.bak".to_string(),
        "prodstesttest3.file".to_string(),
        "test1devstesttest1.txt".to_string(),
        "test1devstesttest1.bak".to_string(),
        "test1devstesttest1.file".to_string(),
        "test1devstesttest2.txt".to_string(),
        "test1devstesttest2.bak".to_string(),
        "test1devstesttest2.file".to_string(),
        "test1devstesttest3.txt".to_string(),
        "test1devstesttest3.bak".to_string(),
        "test1devstesttest3.file".to_string(),
        "test2devstesttest1.txt".to_string(),
        "test2devstesttest1.bak".to_string(),
        "test2devstesttest1.file".to_string(),
        "test2devstesttest2.txt".to_string(),
        "test2devstesttest2.bak".to_string(),
        "test2devstesttest2.file".to_string(),
        "test2devstesttest3.txt".to_string(),
        "test2devstesttest3.bak".to_string(),
        "test2devstesttest3.file".to_string(),
        "test3devstesttest1.txt".to_string(),
        "test3devstesttest1.bak".to_string(),
        "test3devstesttest1.file".to_string(),
        "test3devstesttest2.txt".to_string(),
        "test3devstesttest2.bak".to_string(),
        "test3devstesttest2.file".to_string(),
        "test3devstesttest3.txt".to_string(),
        "test3devstesttest3.bak".to_string(),
        "test3devstesttest3.file".to_string(),
        "test1prodstesttest1.txt".to_string(),
        "test1prodstesttest1.bak".to_string(),
        "test1prodstesttest1.file".to_string(),
        "test1prodstesttest2.txt".to_string(),
        "test1prodstesttest2.bak".to_string(),
        "test1prodstesttest2.file".to_string(),
        "test1prodstesttest3.txt".to_string(),
        "test1prodstesttest3.bak".to_string(),
        "test1prodstesttest3.file".to_string(),
        "test2prodstesttest1.txt".to_string(),
        "test2prodstesttest1.bak".to_string(),
        "test2prodstesttest1.file".to_string(),
        "test2prodstesttest2.txt".to_string(),
        "test2prodstesttest2.bak".to_string(),
        "test2prodstesttest2.file".to_string(),
        "test2prodstesttest3.txt".to_string(),
        "test2prodstesttest3.bak".to_string(),
        "test2prodstesttest3.file".to_string(),
        "test3prodstesttest1.txt".to_string(),
        "test3prodstesttest1.bak".to_string(),
        "test3prodstesttest1.file".to_string(),
        "test3prodstesttest2.txt".to_string(),
        "test3prodstesttest2.bak".to_string(),
        "test3prodstesttest2.file".to_string(),
        "test3prodstesttest3.txt".to_string(),
        "test3prodstesttest3.bak".to_string(),
        "test3prodstesttest3.file".to_string(),
    ];

    println!("test_all: {:?}", words);
    assert!(do_vecs_match(&words, &answer));
}
