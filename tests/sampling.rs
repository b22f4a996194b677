use candle_core::{Device, Tensor};
use candle_transformers::generation::LogitsProcessor;
use candle_transformers::utils::apply_repeat_penalty;
use llm_functions::generation::{Generation, Sampled};

fn logits_for(context: &[u32], offset: usize) -> Tensor {
    let mut v = vec![0.0f32; 8];
    let last = context.last().copied().unwrap_or(0) as usize;
    v[(last + offset + 3) % 8] = 5.0;
    v[(last + 1) % 8] = 2.0;
    Tensor::new(v.as_slice(), &Device::Cpu).unwrap()
}

fn greedy_run(prompt: Vec<u32>, max_tokens: usize) -> Vec<u32> {
    let mut sampler = LogitsProcessor::new(299792458, None, None);
    let mut g = Generation::new(prompt, max_tokens, 7);
    let mut out = Vec::new();
    while !g.is_done() {
        let (ctxt, offset) = g.context();
        let logits = logits_for(&ctxt, offset);
        let t = sampler.sample(&logits).unwrap();
        if let Sampled::Emit(t) = g.accept(t) {
            out.push(t);
        }
    }
    out
}

#[test]
fn greedy_runs_agree() {
    let a = greedy_run(vec![1, 2, 3], 6);
    let b = greedy_run(vec![1, 2, 3], 6);
    assert_eq!(a, b);
    assert!(!a.is_empty());
    assert!(a.len() <= 6);
}

#[test]
fn budget_bounds_emitted_tokens() {
    for max_tokens in 0..5 {
        let out = greedy_run(vec![2], max_tokens);
        assert!(out.len() <= max_tokens);
    }
}

#[test]
fn unit_penalty_leaves_logits_unchanged() {
    let raw = Tensor::new(&[1.5f32, -2.0, 0.25, 3.0], &Device::Cpu).unwrap();
    let g = Generation::new(vec![0, 1, 1, 3], 4, 9);
    let window = g.penalty_window(64);
    let adjusted = apply_repeat_penalty(&raw, 1.0, &window).unwrap();
    assert_eq!(raw.to_vec1::<f32>().unwrap(), adjusted.to_vec1::<f32>().unwrap());
}
