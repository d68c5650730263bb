use fast_string::FastString;

struct Lcg {
    state: u64,
}

impl Lcg {
    fn new(seed: u64) -> Lcg {
        Lcg { state: seed }
    }

    fn next(&mut self) -> u64 {
        self.state = self
            .state
            .wrapping_mul(6364136223846793005u64)
            .wrapping_add(1442695040888963407u64);
        self.state >> 16
    }

    fn below(&mut self, n: usize) -> usize {
        (self.next() % (n as u64)) as usize
    }
}

fn random_string(rng: &mut Lcg, n: usize) -> String {
    let alphabet: &[u8] = b"ABCDEFGHIJKLMNOPQRSTUVWXYZabcdefghijklmnopqrstuvwxyz0123456789";
    let mut s = String::new();
    let mut i: usize = 0;
    while i < n {
        let k: usize = rng.below(alphabet.len());
        s.push(alphabet[k] as char);
        i += 1;
    }
    s
}

fn is_same(s: &String, fs: &FastString) -> bool {
    s.is_empty() == fs.is_empty() && s.len() == fs.len() && s.as_str() == fs.as_str()
}

fn push_command(s: &mut String, fs: &mut FastString, ch: char) -> bool {
    s.push(ch);
    fs.push(ch);
    is_same(s, fs)
}

fn push_str_command(s: &mut String, fs: &mut FastString, add: &str) -> bool {
    s.push_str(add);
    fs.push_str(add);
    is_same(s, fs)
}

fn remove_command(s: &mut String, fs: &mut FastString, idx: usize) -> bool {
    if s.is_empty() {
        return true;
    }
    let index = idx % s.len();
    if !s.is_char_boundary(index) {
        return true;
    }
    s.remove(index);
    fs.remove(index);
    is_same(s, fs)
}

#[test]
fn test_test_simple() {
    let mut rng = Lcg::new(11);
    for _ in 0..1000 {
        let x: u8 = rng.next() as u8;
        let s = random_string(&mut rng, x as usize);
        let fs = FastString::from(s.as_str());
        assert!(is_same(&s, &fs));
    }
}

#[test]
fn test_test_push() {
    let mut rng = Lcg::new(12);
    for _ in 0..1000 {
        let mut x: u8 = rng.next() as u8;
        let mut s = random_string(&mut rng, x as usize);
        let mut fs = FastString::from(s.as_str());
        x = rng.next() as u8;
        let add = random_string(&mut rng, x as usize);
        assert!(is_same(&s, &fs));
        for ch in add.chars() {
            assert!(push_command(&mut s, &mut fs, ch));
        }
    }
}

#[test]
fn test_test_push_str() {
    let mut rng = Lcg::new(13);
    for _ in 0..1000 {
        let mut x: u8 = rng.next() as u8;
        let mut s = random_string(&mut rng, x as usize);
        let mut fs = FastString::from(s.as_str());
        x = rng.next() as u8;
        let add = random_string(&mut rng, x as usize);
        assert!(is_same(&s, &fs));
        assert!(push_str_command(&mut s, &mut fs, add.as_str()));
    }
}

#[test]
fn test_test_remove() {
    let mut rng = Lcg::new(14);
    for _ in 0..1000 {
        let x: u8 = rng.next() as u8;
        let mut s = random_string(&mut rng, x as usize);
        let mut fs = FastString::from(s.as_str());
        assert!(is_same(&s, &fs));
        while !fs.is_empty() {
            let index: usize = rng.next() as usize;
            assert!(remove_command(&mut s, &mut fs, index));
        }
    }
}

#[test]
fn test_test_clone() {
    let mut rng = Lcg::new(15);
    for _ in 0..1000 {
        let mut x: u8 = rng.next() as u8;
        let mut s = random_string(&mut rng, x as usize);
        let mut fs = FastString::from(s.as_str());
        let mut fs_clone = fs.clone();
        assert!(is_same(&s, &fs));
        assert!(is_same(&s, &fs_clone));
        x = rng.next() as u8;
        let text = random_string(&mut rng, x as usize);
        for ch in text.chars() {
            s.push(ch);
            fs.push(ch);
            fs_clone.push(ch);
            assert!(is_same(&s, &fs));
            assert!(is_same(&s, &fs_clone));
        }
    }
}
