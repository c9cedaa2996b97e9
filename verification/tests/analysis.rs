use lib::analysis::basic_block::BasicBlock;
use lib::analysis::control_flow_graph::ControlFlowGraph;
use lib::analysis::liveness::compute_liveness;
use lib::mir::compiler::{InstructionMIRCompiler, MIRCompilationResult};
use lib::model::binder::Binder;
use lib::model::function::{Function, FunctionDeclaration};
use lib::model::instruction::Instruction;
use lib::model::typesystem::{TypeId, TypeStorage};
use lib::model::verification::Verifier;

fn compile(function: &mut Function) -> MIRCompilationResult {
    let binder = Binder::new();
    let type_storage = TypeStorage::new();
    Verifier::new(&binder, &type_storage, function).verify().unwrap();
    let function: &Function = function;
    let mut compiler = InstructionMIRCompiler::new(&binder, function);
    compiler.compile(function.instructions());
    compiler.done()
}

fn branching_function() -> Function {
    Function::new(
        FunctionDeclaration::new_managed("test".to_owned(), vec![], TypeId::Int32),
        vec![TypeId::Int32],
        vec![
            Instruction::LoadInt32(1),
            Instruction::LoadInt32(2),
            Instruction::BranchNotEqual(6),

            Instruction::LoadInt32(1337),
            Instruction::StoreLocal(0),
            Instruction::Branch(8),

            Instruction::LoadInt32(4711),
            Instruction::StoreLocal(0),

            Instruction::LoadLocal(0),
            Instruction::Return,
        ]
    )
}

#[test]
fn basic_block_test_no_branches1() {
    let mut function = Function::new(
        FunctionDeclaration::new_managed("test".to_owned(), vec![], TypeId::Int32),
        vec![],
        vec![
            Instruction::LoadInt32(1),
            Instruction::LoadInt32(2),
            Instruction::Add,
            Instruction::LoadInt32(3),
            Instruction::Add,
            Instruction::Return,
        ]
    );

    let instructions = compile(&mut function).instructions;
    let blocks = BasicBlock::create_blocks(&instructions);

    assert_eq!(1, blocks.len());
    assert_eq!(instructions.len(), blocks[0].instructions.len());
}

#[test]
fn basic_block_test_branches1() {
    let mut function = branching_function();
    let instructions = compile(&mut function).instructions;
    let blocks = BasicBlock::create_blocks(&instructions);

    let all_indices: Vec<usize> = (0..instructions.len()).collect();

    assert_eq!(4, blocks.len());
    assert_eq!(all_indices, BasicBlock::linearize(&blocks));

    let mut linearized_instructions = Vec::new();
    for (block_index, block) in blocks.iter().enumerate() {
        if block_index + 1 < blocks.len() {
            let expected_block_instructions = &all_indices[block.start_offset..blocks[block_index + 1].start_offset];
            assert_eq!(&block.instructions[..], expected_block_instructions);
            linearized_instructions.extend(expected_block_instructions.iter().cloned())
        }
    }

    linearized_instructions.extend(blocks.last().unwrap().instructions.iter().cloned());

    assert_eq!(all_indices, linearized_instructions);
}

#[test]
fn control_flow_graph_test_branches1() {
    let mut function = branching_function();
    let instructions = compile(&mut function).instructions;
    let blocks = BasicBlock::create_blocks(&instructions);
    let control_flow_graph = ControlFlowGraph::new(&instructions, &blocks);

    for &vertex_index in &control_flow_graph.vertices {
        let block = &blocks[vertex_index];
        println!("{}..{}", block.start_offset, block.start_offset + block.instructions.len() - 1);
        for edge in &control_flow_graph.edges[vertex_index] {
            let edge_block = &blocks[edge.to];
            println!("\t{}..{}", edge_block.start_offset, edge_block.start_offset + edge_block.instructions.len() - 1);
        }
    }
}

#[test]
fn control_flow_graph_edges_follow_branches() {
    let mut function = branching_function();
    let instructions = compile(&mut function).instructions;
    let blocks = BasicBlock::create_blocks(&instructions);
    let control_flow_graph = ControlFlowGraph::new(&instructions, &blocks);

    let targets = |edges: &Vec<lib::analysis::control_flow_graph::ControlFlowEdge>| -> Vec<usize> {
        edges.iter().map(|edge| edge.to).collect()
    };

    assert_eq!(vec![0, 1, 2, 3], control_flow_graph.vertices);
    assert_eq!(vec![2, 1], targets(&control_flow_graph.edges[0]));
    assert_eq!(vec![3], targets(&control_flow_graph.edges[1]));
    assert_eq!(vec![3], targets(&control_flow_graph.edges[2]));
    assert!(control_flow_graph.edges[3].is_empty());

    assert!(control_flow_graph.back_edges[0].is_empty());
    assert_eq!(vec![0], targets(&control_flow_graph.back_edges[1]));
    assert_eq!(vec![0], targets(&control_flow_graph.back_edges[2]));
    assert_eq!(vec![1, 2], targets(&control_flow_graph.back_edges[3]));
}

#[test]
fn test_liveness1() {
    let mut function = Function::new(
        FunctionDeclaration::new_managed("test".to_owned(), vec![], TypeId::Int32),
        vec![],
        vec![
            Instruction::LoadInt32(1),

            Instruction::LoadInt32(2),
            Instruction::Add,

            Instruction::LoadInt32(3),
            Instruction::Add,

            Instruction::LoadInt32(4),
            Instruction::Add,

            Instruction::LoadInt32(5),
            Instruction::Add,

            Instruction::Return,
        ]
    );

    let compilation_result = compile(&mut function);
    let instructions = &compilation_result.instructions;

    let blocks = BasicBlock::create_blocks(&instructions);
    let control_flow_graph = ControlFlowGraph::new(&instructions, &blocks);

    let live_intervals = compute_liveness(&compilation_result, &blocks, &control_flow_graph);

    assert_eq!(2, live_intervals.len());

    assert_eq!(0, live_intervals[0].register.number);
    assert_eq!(0, live_intervals[0].start);
    assert_eq!(9, live_intervals[0].end);

    assert_eq!(1, live_intervals[1].register.number);
    assert_eq!(1, live_intervals[1].start);
    assert_eq!(8, live_intervals[1].end);

    for (index, instruction) in instructions.iter().enumerate() {
        println!("{}: {:?}", index, instruction);
    }

    println!();

    for interval in live_intervals {
        println!("{:?}", interval);
    }
}

#[test]
fn test_liveness2() {
    let mut function = Function::new(
        FunctionDeclaration::new_managed("test".to_owned(), vec![], TypeId::Int32),
        vec![TypeId::Int32],
        vec![
            Instruction::LoadInt32(1),
            Instruction::LoadInt32(2),
            Instruction::Add,
            Instruction::StoreLocal(0),

            Instruction::LoadInt32(3),
            Instruction::Return,
        ]
    );

    let compilation_result = compile(&mut function);
    let instructions = &compilation_result.instructions;

    let blocks = BasicBlock::create_blocks(&instructions);
    let control_flow_graph = ControlFlowGraph::new(&instructions, &blocks);

    let live_intervals = compute_liveness(&compilation_result, &blocks, &control_flow_graph);

    assert_eq!(3, live_intervals.len());

    assert_eq!(0, live_intervals[0].register.number);
    assert_eq!(3, live_intervals[0].start);
    assert_eq!(3, live_intervals[0].end);

    assert_eq!(1, live_intervals[1].register.number);
    assert_eq!(0, live_intervals[1].start);
    assert_eq!(5, live_intervals[1].end);

    assert_eq!(2, live_intervals[2].register.number);
    assert_eq!(1, live_intervals[2].start);
    assert_eq!(2, live_intervals[2].end);

    for (index, instruction) in instructions.iter().enumerate() {
        println!("{}: {:?}", index, instruction);
    }

    println!();

    for interval in live_intervals {
        println!("{:?}", interval);
    }
}

#[test]
fn test_liveness3() {
    let mut function = branching_function();

    let compilation_result = compile(&mut function);
    let instructions = &compilation_result.instructions;

    let blocks = BasicBlock::create_blocks(&instructions);
    let control_flow_graph = ControlFlowGraph::new(&instructions, &blocks);

    let live_intervals = compute_liveness(&compilation_result, &blocks, &control_flow_graph);

    assert_eq!(3, live_intervals.len());

    assert_eq!(0, live_intervals[0].register.number);
    assert_eq!(4, live_intervals[0].start);
    assert_eq!(10, live_intervals[0].end);

    assert_eq!(1, live_intervals[1].register.number);
    assert_eq!(0, live_intervals[1].start);
    assert_eq!(11, live_intervals[1].end);

    assert_eq!(2, live_intervals[2].register.number);
    assert_eq!(1, live_intervals[2].start);
    assert_eq!(2, live_intervals[2].end);

    for (index, instruction) in instructions.iter().enumerate() {
        println!("{}: {:?}", index, instruction);
    }

    println!();

    for interval in live_intervals {
        println!("{:?}", interval);
    }
}

#[test]
fn reference_locals_are_alive_everywhere() {
    let mut function = Function::new(
        FunctionDeclaration::new_managed("test".to_owned(), vec![], TypeId::Int32),
        vec![TypeId::Array(Box::new(TypeId::Int32))],
        vec![
            Instruction::LoadInt32(2),
            Instruction::NewArray(TypeId::Int32),
            Instruction::StoreLocal(0),
            Instruction::LoadInt32(0),
            Instruction::Return,
        ]
    );

    let compilation_result = compile(&mut function);
    let instructions = &compilation_result.instructions;
    let blocks = BasicBlock::create_blocks(&instructions);
    let control_flow_graph = ControlFlowGraph::new(&instructions, &blocks);
    let live_intervals = compute_liveness(&compilation_result, &blocks, &control_flow_graph);

    let local = live_intervals.iter().find(|interval| interval.register.number == 0).unwrap();
    assert_eq!(0, local.start);
    assert_eq!(instructions.len() - 1, local.end);
}
