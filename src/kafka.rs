use vstd::prelude::*;

verus! {

/// The options of a broker producer that this library names.
#[derive(Debug, Copy, Clone, PartialEq, Eq, Structural)]
pub enum KafkaProducerOptionKey {
    CompressionType,
}

pub type OptionKey = KafkaProducerOptionKey;

/// How the broker producer compresses messages.
#[derive(Debug, Copy, Clone, PartialEq, Eq, Structural)]
pub enum CompressionType {
    Uncompressed,
    Gzip,
    Snappy,
    Lz4,
    Zstd,
}

impl Default for CompressionType {
    fn default() -> (r: Self)
        ensures
            r == CompressionType::Uncompressed,
    {
        CompressionType::Uncompressed
    }
}

/// The configuration name of an option key.
pub open spec fn option_key_name(k: OptionKey) -> Seq<char> {
    match k {
        KafkaProducerOptionKey::CompressionType => "compression.type"@,
    }
}

/// The configuration value of a compression type.
pub open spec fn compression_name(c: CompressionType) -> Seq<char> {
    match c {
        CompressionType::Uncompressed => "none"@,
        CompressionType::Gzip => "gzip"@,
        CompressionType::Snappy => "snappy"@,
        CompressionType::Lz4 => "lz4"@,
        CompressionType::Zstd => "zstd"@,
    }
}

impl KafkaProducerOptionKey {
    pub fn as_str(&self) -> (r: &'static str)
        ensures
            r@ == option_key_name(*self),
    {
        match self {
            KafkaProducerOptionKey::CompressionType => "compression.type",
        }
    }
}

impl CompressionType {
    pub fn as_str(&self) -> (r: &'static str)
        ensures
            r@ == compression_name(*self),
    {
        match self {
            CompressionType::Uncompressed => "none",
            CompressionType::Gzip => "gzip",
            CompressionType::Snappy => "snappy",
            CompressionType::Lz4 => "lz4",
            CompressionType::Zstd => "zstd",
        }
    }
}

/// Options of a broker producer: a compression type, and options by name.
#[derive(Debug, Clone)]
pub struct KafkaProducerOptions {
    compression_type: Option<CompressionType>,
    custom_options: Vec<(String, String)>,
}

/// The views of a list of name and value pairs.
pub open spec fn pair_views(v: Seq<(String, String)>) -> Seq<(Seq<char>, Seq<char>)> {
    v.map_values(|p: (String, String)| (p.0@, p.1@))
}

impl Default for KafkaProducerOptions {
    fn default() -> (r: Self)
        ensures
            r.compression() is None,
            r.customs().len() == 0,
    {
        KafkaProducerOptions { compression_type: None, custom_options: Vec::new() }
    }
}

impl KafkaProducerOptions {
    /// The compression type, if one is set.
    pub closed spec fn compression(&self) -> Option<CompressionType> {
        self.compression_type
    }

    /// The options set by name, in the order they were added.
    pub closed spec fn customs(&self) -> Seq<(Seq<char>, Seq<char>)> {
        pair_views(self.custom_options@)
    }

    /// Sets the compression method of the producer.
    pub fn set_compression_type(&mut self, v: CompressionType) -> (r: &mut Self)
        ensures
            r.compression() == Some(v),
            r.customs() == old(self).customs(),
            *final(self) == *final(r),
    {
        self.compression_type = Some(v);
        self
    }

    /// The compression method, if one is set.
    pub fn compression_type(&self) -> (r: Option<&CompressionType>)
        ensures
            match self.compression() {
                Some(c) => r matches Some(x) && *x == c,
                None => r is None,
            },
    {
        self.compression_type.as_ref()
    }

    /// Adds an option by name; later options come after earlier ones.
    pub fn add_custom_option(&mut self, key: String, value: String) -> (r: &mut Self)
        ensures
            r.compression() == old(self).compression(),
            r.customs() == old(self).customs().push((key@, value@)),
            *final(self) == *final(r),
    {
        let ghost before = self.custom_options@;
        self.custom_options.push((key, value));
        assert(pair_views(self.custom_options@) =~= pair_views(before).push((key@, value@)));
        self
    }

    /// The options set by name, in the order they were added.
    pub fn custom_options(&self) -> (r: &[(String, String)])
        ensures
            pair_views(r@) == self.customs(),
    {
        self.custom_options.as_slice()
    }

    /// The client configuration the options make: the compression type
    /// first, if set, then the options by name in order.
    pub fn make_client_config(&self) -> (r: Vec<(String, String)>)
        ensures
            pair_views(r@) == match self.compression() {
                Some(c) => seq![(option_key_name(OptionKey::CompressionType), compression_name(c))],
                None => Seq::empty(),
            } + self.customs(),
    {
        let mut out: Vec<(String, String)> = Vec::new();
        match self.compression_type {
            Some(c) => {
                out.push((OptionKey::CompressionType.as_str().to_owned(), c.as_str().to_owned()));
            },
            None => {},
        }
        let ghost start = pair_views(out@);
        let mut i: usize = 0;
        while i < self.custom_options.len()
            invariant
                i <= self.custom_options@.len(),
                pair_views(out@) == start + pair_views(self.custom_options@).subrange(0, i as int),
            decreases self.custom_options@.len() - i,
        {
            let (k, v) = &self.custom_options[i];
            let ghost before = out@;
            out.push((k.clone(), v.clone()));
            assert(pair_views(out@) =~= pair_views(before).push((k@, v@)));
            assert(pair_views(self.custom_options@).subrange(0, i + 1) =~= pair_views(
                self.custom_options@,
            ).subrange(0, i as int).push((k@, v@)));
            i = i + 1;
        }
        assert(pair_views(self.custom_options@).subrange(0, i as int) =~= pair_views(
            self.custom_options@,
        ));
        proof {
            match self.compression_type {
                Some(c) => {
                    assert(start =~= seq![(option_key_name(OptionKey::CompressionType), compression_name(c))]);
                },
                None => {
                    assert(start =~= Seq::<(Seq<char>, Seq<char>)>::empty());
                },
            }
        }
        out
    }
}

} // verus!
